//! The argument records of every method, in wire order.
use vstd::prelude::*;
use crate::error::{FrameDecodeErr, SyntaxErrorKind, agrees};
use crate::wire::{put_u8, put_u16, put_u32, put_u64, decode_u8, decode_u16, decode_u32, decode_u64};
use crate::strings::{ShortStr, LongStr};
use crate::field::{FieldTable, FieldValueModel, value_fits};
use crate::args::{ArgKind, ArgModel, enc_args, parse_args, pack_bits, unpack_bits, lemma_cons_index, lemma_cons_skip, lemma_skip_skip, lemma_prepend_start, lemma_args_step, prepend, bit};
use crate::method::{Method, ConnectionMethod, ChannelMethod, AccessMethod, ExchangeMethod, QueueMethod, BasicMethod, ConfirmMethod, TxMethod};

verus! {

broadcast use {lemma_cons_index, lemma_cons_skip};

/// Arguments of `Connection.Start`.
#[derive(Debug)]
pub struct ConnectionStart {
    pub version_major: u8,
    pub version_minor: u8,
    pub server_properties: FieldTable,
    pub mechanisms: LongStr,
    pub locales: LongStr,
}

impl View for ConnectionStart {
    type V = Seq<ArgModel>;

    open spec fn view(&self) -> Seq<ArgModel> {
        seq![ArgModel::Octet(self.version_major)] + (seq![ArgModel::Octet(self.version_minor)] + (seq![ArgModel::Table(self.server_properties@)] + (seq![ArgModel::LongStr(self.mechanisms@)] + (seq![ArgModel::LongStr(self.locales@)] + Seq::<ArgModel>::empty()))))
    }
}

impl ConnectionStart {
    /// The wire types of the fields, in order.
    pub open spec fn layout() -> Seq<ArgKind> {
        seq![ArgKind::Octet] + (seq![ArgKind::Octet] + (seq![ArgKind::Table] + (seq![ArgKind::LongStr] + (seq![ArgKind::LongStr] + Seq::<ArgKind>::empty()))))
    }

    /// Every field table in the arguments has a body within a `u32` length.
    pub open spec fn encodable(&self) -> bool {
        value_fits(FieldValueModel::FieldTable(self.server_properties@))
    }

    pub fn encode(&self, out: &mut Vec<u8>)
        requires
            self.encodable(),
        ensures
            final(out)@ == old(out)@ + enc_args(self@),
    {
        proof {
            reveal_with_fuel(enc_args, 6);
        }
        put_u8(out, self.version_major);
        put_u8(out, self.version_minor);
        self.server_properties.encode(out);
        self.mechanisms.encode(out);
        self.locales.encode(out);
        assert(out@ =~= old(out)@ + enc_args(self@));
    }

    #[verifier::spinoff_prover]
    #[verifier::rlimit(100)]
    pub fn decode(buf: &[u8]) -> (r: Result<(&[u8], ConnectionStart), FrameDecodeErr>)
        ensures
            agrees(buf@, r, parse_args(ConnectionStart::layout(), buf@)),
    {
        let ghost lay = ConnectionStart::layout();
        let ghost c0: nat = 0;
        let ghost d0 = Seq::<ArgModel>::empty();
        proof {
            lemma_prepend_start(parse_args(lay, buf@));
            assert(lay.skip(0) =~= lay);
            assert(buf@.skip(0) =~= buf@);
        }
        let r0 = buf;
        proof {
            assert(lay.skip(0)[0] == ArgKind::Octet);
            assert(parse_args(lay, buf@) == prepend(parse_args(lay.skip(0), r0@), c0, d0));
            assert(r0@ == buf@.skip(c0 as int));
        }
        let (r1, version_major) = match decode_u8(r0) {
            Ok(v) => v,
            Err(e) => {
                proof {
                    lemma_args_step(lay.skip(0), r0@, c0, d0);
                }
                return Err(e);
            },
        };
        let ghost c1 = (c0 + (r0@.len() - r1@.len())) as nat;
        let ghost d1 = d0.push(ArgModel::Octet(version_major));
        proof {
            lemma_args_step(lay.skip(0), r0@, c0, d0);
            lemma_skip_skip(buf@, c0 as int, r0@.len() - r1@.len());
            assert(lay.skip(0).skip(1) =~= lay.skip(1));
        }
        proof {
            assert(lay.skip(1)[0] == ArgKind::Octet);
            assert(parse_args(lay, buf@) == prepend(parse_args(lay.skip(1), r1@), c1, d1));
            assert(r1@ == buf@.skip(c1 as int));
        }
        let (r2, version_minor) = match decode_u8(r1) {
            Ok(v) => v,
            Err(e) => {
                proof {
                    lemma_args_step(lay.skip(1), r1@, c1, d1);
                }
                return Err(e);
            },
        };
        let ghost c2 = (c1 + (r1@.len() - r2@.len())) as nat;
        let ghost d2 = d1.push(ArgModel::Octet(version_minor));
        proof {
            lemma_args_step(lay.skip(1), r1@, c1, d1);
            lemma_skip_skip(buf@, c1 as int, r1@.len() - r2@.len());
            assert(lay.skip(1).skip(1) =~= lay.skip(2));
        }
        proof {
            assert(lay.skip(2)[0] == ArgKind::Table);
            assert(parse_args(lay, buf@) == prepend(parse_args(lay.skip(2), r2@), c2, d2));
            assert(r2@ == buf@.skip(c2 as int));
        }
        let (r3, server_properties) = match FieldTable::decode(r2) {
            Ok(v) => v,
            Err(e) => {
                proof {
                    lemma_args_step(lay.skip(2), r2@, c2, d2);
                }
                return Err(e);
            },
        };
        let ghost c3 = (c2 + (r2@.len() - r3@.len())) as nat;
        let ghost d3 = d2.push(ArgModel::Table(server_properties@));
        proof {
            lemma_args_step(lay.skip(2), r2@, c2, d2);
            lemma_skip_skip(buf@, c2 as int, r2@.len() - r3@.len());
            assert(lay.skip(2).skip(1) =~= lay.skip(3));
        }
        proof {
            assert(lay.skip(3)[0] == ArgKind::LongStr);
            assert(parse_args(lay, buf@) == prepend(parse_args(lay.skip(3), r3@), c3, d3));
            assert(r3@ == buf@.skip(c3 as int));
        }
        let (r4, mechanisms) = match LongStr::decode(r3) {
            Ok(v) => v,
            Err(e) => {
                proof {
                    lemma_args_step(lay.skip(3), r3@, c3, d3);
                }
                return Err(e);
            },
        };
        let ghost c4 = (c3 + (r3@.len() - r4@.len())) as nat;
        let ghost d4 = d3.push(ArgModel::LongStr(mechanisms@));
        proof {
            lemma_args_step(lay.skip(3), r3@, c3, d3);
            lemma_skip_skip(buf@, c3 as int, r3@.len() - r4@.len());
            assert(lay.skip(3).skip(1) =~= lay.skip(4));
        }
        proof {
            assert(lay.skip(4)[0] == ArgKind::LongStr);
            assert(parse_args(lay, buf@) == prepend(parse_args(lay.skip(4), r4@), c4, d4));
            assert(r4@ == buf@.skip(c4 as int));
        }
        let (r5, locales) = match LongStr::decode(r4) {
            Ok(v) => v,
            Err(e) => {
                proof {
                    lemma_args_step(lay.skip(4), r4@, c4, d4);
                }
                return Err(e);
            },
        };
        let ghost c5 = (c4 + (r4@.len() - r5@.len())) as nat;
        let ghost d5 = d4.push(ArgModel::LongStr(locales@));
        proof {
            lemma_args_step(lay.skip(4), r4@, c4, d4);
            lemma_skip_skip(buf@, c4 as int, r4@.len() - r5@.len());
            assert(lay.skip(4).skip(1) =~= lay.skip(5));
        }
        let r = ConnectionStart { version_major, version_minor, server_properties, mechanisms, locales };
        proof {
            assert(lay.skip(5) =~= Seq::<ArgKind>::empty());
            assert(r@ =~= d5);
        }
        Ok((r5, r))
    }
}

/// Arguments of `Connection.StartOk`.
#[derive(Debug)]
pub struct ConnectionStartOk {
    pub client_properties: FieldTable,
    pub mechanism: ShortStr,
    pub response: LongStr,
    pub locale: ShortStr,
}

impl View for ConnectionStartOk {
    type V = Seq<ArgModel>;

    open spec fn view(&self) -> Seq<ArgModel> {
        seq![ArgModel::Table(self.client_properties@)] + (seq![ArgModel::ShortStr(self.mechanism@)] + (seq![ArgModel::LongStr(self.response@)] + (seq![ArgModel::ShortStr(self.locale@)] + Seq::<ArgModel>::empty())))
    }
}

impl ConnectionStartOk {
    /// The wire types of the fields, in order.
    pub open spec fn layout() -> Seq<ArgKind> {
        seq![ArgKind::Table] + (seq![ArgKind::ShortStr] + (seq![ArgKind::LongStr] + (seq![ArgKind::ShortStr] + Seq::<ArgKind>::empty())))
    }

    /// Every field table in the arguments has a body within a `u32` length.
    pub open spec fn encodable(&self) -> bool {
        value_fits(FieldValueModel::FieldTable(self.client_properties@))
    }

    pub fn encode(&self, out: &mut Vec<u8>)
        requires
            self.encodable(),
        ensures
            final(out)@ == old(out)@ + enc_args(self@),
    {
        proof {
            reveal_with_fuel(enc_args, 5);
        }
        self.client_properties.encode(out);
        self.mechanism.encode(out);
        self.response.encode(out);
        self.locale.encode(out);
        assert(out@ =~= old(out)@ + enc_args(self@));
    }

    #[verifier::spinoff_prover]
    #[verifier::rlimit(100)]
    pub fn decode(buf: &[u8]) -> (r: Result<(&[u8], ConnectionStartOk), FrameDecodeErr>)
        ensures
            agrees(buf@, r, parse_args(ConnectionStartOk::layout(), buf@)),
    {
        let ghost lay = ConnectionStartOk::layout();
        let ghost c0: nat = 0;
        let ghost d0 = Seq::<ArgModel>::empty();
        proof {
            lemma_prepend_start(parse_args(lay, buf@));
            assert(lay.skip(0) =~= lay);
            assert(buf@.skip(0) =~= buf@);
        }
        let r0 = buf;
        proof {
            assert(lay.skip(0)[0] == ArgKind::Table);
            assert(parse_args(lay, buf@) == prepend(parse_args(lay.skip(0), r0@), c0, d0));
            assert(r0@ == buf@.skip(c0 as int));
        }
        let (r1, client_properties) = match FieldTable::decode(r0) {
            Ok(v) => v,
            Err(e) => {
                proof {
                    lemma_args_step(lay.skip(0), r0@, c0, d0);
                }
                return Err(e);
            },
        };
        let ghost c1 = (c0 + (r0@.len() - r1@.len())) as nat;
        let ghost d1 = d0.push(ArgModel::Table(client_properties@));
        proof {
            lemma_args_step(lay.skip(0), r0@, c0, d0);
            lemma_skip_skip(buf@, c0 as int, r0@.len() - r1@.len());
            assert(lay.skip(0).skip(1) =~= lay.skip(1));
        }
        proof {
            assert(lay.skip(1)[0] == ArgKind::ShortStr);
            assert(parse_args(lay, buf@) == prepend(parse_args(lay.skip(1), r1@), c1, d1));
            assert(r1@ == buf@.skip(c1 as int));
        }
        let (r2, mechanism) = match ShortStr::decode(r1) {
            Ok(v) => v,
            Err(e) => {
                proof {
                    lemma_args_step(lay.skip(1), r1@, c1, d1);
                }
                return Err(e);
            },
        };
        let ghost c2 = (c1 + (r1@.len() - r2@.len())) as nat;
        let ghost d2 = d1.push(ArgModel::ShortStr(mechanism@));
        proof {
            lemma_args_step(lay.skip(1), r1@, c1, d1);
            lemma_skip_skip(buf@, c1 as int, r1@.len() - r2@.len());
            assert(lay.skip(1).skip(1) =~= lay.skip(2));
        }
        proof {
            assert(lay.skip(2)[0] == ArgKind::LongStr);
            assert(parse_args(lay, buf@) == prepend(parse_args(lay.skip(2), r2@), c2, d2));
            assert(r2@ == buf@.skip(c2 as int));
        }
        let (r3, response) = match LongStr::decode(r2) {
            Ok(v) => v,
            Err(e) => {
                proof {
                    lemma_args_step(lay.skip(2), r2@, c2, d2);
                }
                return Err(e);
            },
        };
        let ghost c3 = (c2 + (r2@.len() - r3@.len())) as nat;
        let ghost d3 = d2.push(ArgModel::LongStr(response@));
        proof {
            lemma_args_step(lay.skip(2), r2@, c2, d2);
            lemma_skip_skip(buf@, c2 as int, r2@.len() - r3@.len());
            assert(lay.skip(2).skip(1) =~= lay.skip(3));
        }
        proof {
            assert(lay.skip(3)[0] == ArgKind::ShortStr);
            assert(parse_args(lay, buf@) == prepend(parse_args(lay.skip(3), r3@), c3, d3));
            assert(r3@ == buf@.skip(c3 as int));
        }
        let (r4, locale) = match ShortStr::decode(r3) {
            Ok(v) => v,
            Err(e) => {
                proof {
                    lemma_args_step(lay.skip(3), r3@, c3, d3);
                }
                return Err(e);
            },
        };
        let ghost c4 = (c3 + (r3@.len() - r4@.len())) as nat;
        let ghost d4 = d3.push(ArgModel::ShortStr(locale@));
        proof {
            lemma_args_step(lay.skip(3), r3@, c3, d3);
            lemma_skip_skip(buf@, c3 as int, r3@.len() - r4@.len());
            assert(lay.skip(3).skip(1) =~= lay.skip(4));
        }
        let r = ConnectionStartOk { client_properties, mechanism, response, locale };
        proof {
            assert(lay.skip(4) =~= Seq::<ArgKind>::empty());
            assert(r@ =~= d4);
        }
        Ok((r4, r))
    }
}

/// Arguments of `Connection.Secure`.
#[derive(Debug)]
pub struct ConnectionSecure {
    pub challenge: LongStr,
}

impl View for ConnectionSecure {
    type V = Seq<ArgModel>;

    open spec fn view(&self) -> Seq<ArgModel> {
        seq![ArgModel::LongStr(self.challenge@)] + Seq::<ArgModel>::empty()
    }
}

impl ConnectionSecure {
    /// The wire types of the fields, in order.
    pub open spec fn layout() -> Seq<ArgKind> {
        seq![ArgKind::LongStr] + Seq::<ArgKind>::empty()
    }

    /// Every field table in the arguments has a body within a `u32` length.
    pub open spec fn encodable(&self) -> bool {
        true
    }

    pub fn encode(&self, out: &mut Vec<u8>)
        requires
            self.encodable(),
        ensures
            final(out)@ == old(out)@ + enc_args(self@),
    {
        proof {
            reveal_with_fuel(enc_args, 2);
        }
        self.challenge.encode(out);
        assert(out@ =~= old(out)@ + enc_args(self@));
    }

    #[verifier::spinoff_prover]
    #[verifier::rlimit(100)]
    pub fn decode(buf: &[u8]) -> (r: Result<(&[u8], ConnectionSecure), FrameDecodeErr>)
        ensures
            agrees(buf@, r, parse_args(ConnectionSecure::layout(), buf@)),
    {
        let ghost lay = ConnectionSecure::layout();
        let ghost c0: nat = 0;
        let ghost d0 = Seq::<ArgModel>::empty();
        proof {
            lemma_prepend_start(parse_args(lay, buf@));
            assert(lay.skip(0) =~= lay);
            assert(buf@.skip(0) =~= buf@);
        }
        let r0 = buf;
        proof {
            assert(lay.skip(0)[0] == ArgKind::LongStr);
            assert(parse_args(lay, buf@) == prepend(parse_args(lay.skip(0), r0@), c0, d0));
            assert(r0@ == buf@.skip(c0 as int));
        }
        let (r1, challenge) = match LongStr::decode(r0) {
            Ok(v) => v,
            Err(e) => {
                proof {
                    lemma_args_step(lay.skip(0), r0@, c0, d0);
                }
                return Err(e);
            },
        };
        let ghost c1 = (c0 + (r0@.len() - r1@.len())) as nat;
        let ghost d1 = d0.push(ArgModel::LongStr(challenge@));
        proof {
            lemma_args_step(lay.skip(0), r0@, c0, d0);
            lemma_skip_skip(buf@, c0 as int, r0@.len() - r1@.len());
            assert(lay.skip(0).skip(1) =~= lay.skip(1));
        }
        let r = ConnectionSecure { challenge };
        proof {
            assert(lay.skip(1) =~= Seq::<ArgKind>::empty());
            assert(r@ =~= d1);
        }
        Ok((r1, r))
    }
}

/// Arguments of `Connection.SecureOk`.
#[derive(Debug)]
pub struct ConnectionSecureOk {
    pub response: LongStr,
}

impl View for ConnectionSecureOk {
    type V = Seq<ArgModel>;

    open spec fn view(&self) -> Seq<ArgModel> {
        seq![ArgModel::LongStr(self.response@)] + Seq::<ArgModel>::empty()
    }
}

impl ConnectionSecureOk {
    /// The wire types of the fields, in order.
    pub open spec fn layout() -> Seq<ArgKind> {
        seq![ArgKind::LongStr] + Seq::<ArgKind>::empty()
    }

    /// Every field table in the arguments has a body within a `u32` length.
    pub open spec fn encodable(&self) -> bool {
        true
    }

    pub fn encode(&self, out: &mut Vec<u8>)
        requires
            self.encodable(),
        ensures
            final(out)@ == old(out)@ + enc_args(self@),
    {
        proof {
            reveal_with_fuel(enc_args, 2);
        }
        self.response.encode(out);
        assert(out@ =~= old(out)@ + enc_args(self@));
    }

    #[verifier::spinoff_prover]
    #[verifier::rlimit(100)]
    pub fn decode(buf: &[u8]) -> (r: Result<(&[u8], ConnectionSecureOk), FrameDecodeErr>)
        ensures
            agrees(buf@, r, parse_args(ConnectionSecureOk::layout(), buf@)),
    {
        let ghost lay = ConnectionSecureOk::layout();
        let ghost c0: nat = 0;
        let ghost d0 = Seq::<ArgModel>::empty();
        proof {
            lemma_prepend_start(parse_args(lay, buf@));
            assert(lay.skip(0) =~= lay);
            assert(buf@.skip(0) =~= buf@);
        }
        let r0 = buf;
        proof {
            assert(lay.skip(0)[0] == ArgKind::LongStr);
            assert(parse_args(lay, buf@) == prepend(parse_args(lay.skip(0), r0@), c0, d0));
            assert(r0@ == buf@.skip(c0 as int));
        }
        let (r1, response) = match LongStr::decode(r0) {
            Ok(v) => v,
            Err(e) => {
                proof {
                    lemma_args_step(lay.skip(0), r0@, c0, d0);
                }
                return Err(e);
            },
        };
        let ghost c1 = (c0 + (r0@.len() - r1@.len())) as nat;
        let ghost d1 = d0.push(ArgModel::LongStr(response@));
        proof {
            lemma_args_step(lay.skip(0), r0@, c0, d0);
            lemma_skip_skip(buf@, c0 as int, r0@.len() - r1@.len());
            assert(lay.skip(0).skip(1) =~= lay.skip(1));
        }
        let r = ConnectionSecureOk { response };
        proof {
            assert(lay.skip(1) =~= Seq::<ArgKind>::empty());
            assert(r@ =~= d1);
        }
        Ok((r1, r))
    }
}

/// Arguments of `Connection.Tune`.
#[derive(Debug)]
pub struct ConnectionTune {
    pub channel_max: u16,
    pub frame_max: u32,
    pub heartbeat: u16,
}

impl View for ConnectionTune {
    type V = Seq<ArgModel>;

    open spec fn view(&self) -> Seq<ArgModel> {
        seq![ArgModel::Short(self.channel_max)] + (seq![ArgModel::Long(self.frame_max)] + (seq![ArgModel::Short(self.heartbeat)] + Seq::<ArgModel>::empty()))
    }
}

impl ConnectionTune {
    /// The wire types of the fields, in order.
    pub open spec fn layout() -> Seq<ArgKind> {
        seq![ArgKind::Short] + (seq![ArgKind::Long] + (seq![ArgKind::Short] + Seq::<ArgKind>::empty()))
    }

    /// Every field table in the arguments has a body within a `u32` length.
    pub open spec fn encodable(&self) -> bool {
        true
    }

    pub fn encode(&self, out: &mut Vec<u8>)
        requires
            self.encodable(),
        ensures
            final(out)@ == old(out)@ + enc_args(self@),
    {
        proof {
            reveal_with_fuel(enc_args, 4);
        }
        put_u16(out, self.channel_max);
        put_u32(out, self.frame_max);
        put_u16(out, self.heartbeat);
        assert(out@ =~= old(out)@ + enc_args(self@));
    }

    #[verifier::spinoff_prover]
    #[verifier::rlimit(100)]
    pub fn decode(buf: &[u8]) -> (r: Result<(&[u8], ConnectionTune), FrameDecodeErr>)
        ensures
            agrees(buf@, r, parse_args(ConnectionTune::layout(), buf@)),
    {
        let ghost lay = ConnectionTune::layout();
        let ghost c0: nat = 0;
        let ghost d0 = Seq::<ArgModel>::empty();
        proof {
            lemma_prepend_start(parse_args(lay, buf@));
            assert(lay.skip(0) =~= lay);
            assert(buf@.skip(0) =~= buf@);
        }
        let r0 = buf;
        proof {
            assert(lay.skip(0)[0] == ArgKind::Short);
            assert(parse_args(lay, buf@) == prepend(parse_args(lay.skip(0), r0@), c0, d0));
            assert(r0@ == buf@.skip(c0 as int));
        }
        let (r1, channel_max) = match decode_u16(r0) {
            Ok(v) => v,
            Err(e) => {
                proof {
                    lemma_args_step(lay.skip(0), r0@, c0, d0);
                }
                return Err(e);
            },
        };
        let ghost c1 = (c0 + (r0@.len() - r1@.len())) as nat;
        let ghost d1 = d0.push(ArgModel::Short(channel_max));
        proof {
            lemma_args_step(lay.skip(0), r0@, c0, d0);
            lemma_skip_skip(buf@, c0 as int, r0@.len() - r1@.len());
            assert(lay.skip(0).skip(1) =~= lay.skip(1));
        }
        proof {
            assert(lay.skip(1)[0] == ArgKind::Long);
            assert(parse_args(lay, buf@) == prepend(parse_args(lay.skip(1), r1@), c1, d1));
            assert(r1@ == buf@.skip(c1 as int));
        }
        let (r2, frame_max) = match decode_u32(r1) {
            Ok(v) => v,
            Err(e) => {
                proof {
                    lemma_args_step(lay.skip(1), r1@, c1, d1);
                }
                return Err(e);
            },
        };
        let ghost c2 = (c1 + (r1@.len() - r2@.len())) as nat;
        let ghost d2 = d1.push(ArgModel::Long(frame_max));
        proof {
            lemma_args_step(lay.skip(1), r1@, c1, d1);
            lemma_skip_skip(buf@, c1 as int, r1@.len() - r2@.len());
            assert(lay.skip(1).skip(1) =~= lay.skip(2));
        }
        proof {
            assert(lay.skip(2)[0] == ArgKind::Short);
            assert(parse_args(lay, buf@) == prepend(parse_args(lay.skip(2), r2@), c2, d2));
            assert(r2@ == buf@.skip(c2 as int));
        }
        let (r3, heartbeat) = match decode_u16(r2) {
            Ok(v) => v,
            Err(e) => {
                proof {
                    lemma_args_step(lay.skip(2), r2@, c2, d2);
                }
                return Err(e);
            },
        };
        let ghost c3 = (c2 + (r2@.len() - r3@.len())) as nat;
        let ghost d3 = d2.push(ArgModel::Short(heartbeat));
        proof {
            lemma_args_step(lay.skip(2), r2@, c2, d2);
            lemma_skip_skip(buf@, c2 as int, r2@.len() - r3@.len());
            assert(lay.skip(2).skip(1) =~= lay.skip(3));
        }
        let r = ConnectionTune { channel_max, frame_max, heartbeat };
        proof {
            assert(lay.skip(3) =~= Seq::<ArgKind>::empty());
            assert(r@ =~= d3);
        }
        Ok((r3, r))
    }
}

/// Arguments of `Connection.TuneOk`.
#[derive(Debug)]
pub struct ConnectionTuneOk {
    pub channel_max: u16,
    pub frame_max: u32,
    pub heartbeat: u16,
}

impl View for ConnectionTuneOk {
    type V = Seq<ArgModel>;

    open spec fn view(&self) -> Seq<ArgModel> {
        seq![ArgModel::Short(self.channel_max)] + (seq![ArgModel::Long(self.frame_max)] + (seq![ArgModel::Short(self.heartbeat)] + Seq::<ArgModel>::empty()))
    }
}

impl ConnectionTuneOk {
    /// The wire types of the fields, in order.
    pub open spec fn layout() -> Seq<ArgKind> {
        seq![ArgKind::Short] + (seq![ArgKind::Long] + (seq![ArgKind::Short] + Seq::<ArgKind>::empty()))
    }

    /// Every field table in the arguments has a body within a `u32` length.
    pub open spec fn encodable(&self) -> bool {
        true
    }

    pub fn encode(&self, out: &mut Vec<u8>)
        requires
            self.encodable(),
        ensures
            final(out)@ == old(out)@ + enc_args(self@),
    {
        proof {
            reveal_with_fuel(enc_args, 4);
        }
        put_u16(out, self.channel_max);
        put_u32(out, self.frame_max);
        put_u16(out, self.heartbeat);
        assert(out@ =~= old(out)@ + enc_args(self@));
    }

    #[verifier::spinoff_prover]
    #[verifier::rlimit(100)]
    pub fn decode(buf: &[u8]) -> (r: Result<(&[u8], ConnectionTuneOk), FrameDecodeErr>)
        ensures
            agrees(buf@, r, parse_args(ConnectionTuneOk::layout(), buf@)),
    {
        let ghost lay = ConnectionTuneOk::layout();
        let ghost c0: nat = 0;
        let ghost d0 = Seq::<ArgModel>::empty();
        proof {
            lemma_prepend_start(parse_args(lay, buf@));
            assert(lay.skip(0) =~= lay);
            assert(buf@.skip(0) =~= buf@);
        }
        let r0 = buf;
        proof {
            assert(lay.skip(0)[0] == ArgKind::Short);
            assert(parse_args(lay, buf@) == prepend(parse_args(lay.skip(0), r0@), c0, d0));
            assert(r0@ == buf@.skip(c0 as int));
        }
        let (r1, channel_max) = match decode_u16(r0) {
            Ok(v) => v,
            Err(e) => {
                proof {
                    lemma_args_step(lay.skip(0), r0@, c0, d0);
                }
                return Err(e);
            },
        };
        let ghost c1 = (c0 + (r0@.len() - r1@.len())) as nat;
        let ghost d1 = d0.push(ArgModel::Short(channel_max));
        proof {
            lemma_args_step(lay.skip(0), r0@, c0, d0);
            lemma_skip_skip(buf@, c0 as int, r0@.len() - r1@.len());
            assert(lay.skip(0).skip(1) =~= lay.skip(1));
        }
        proof {
            assert(lay.skip(1)[0] == ArgKind::Long);
            assert(parse_args(lay, buf@) == prepend(parse_args(lay.skip(1), r1@), c1, d1));
            assert(r1@ == buf@.skip(c1 as int));
        }
        let (r2, frame_max) = match decode_u32(r1) {
            Ok(v) => v,
            Err(e) => {
                proof {
                    lemma_args_step(lay.skip(1), r1@, c1, d1);
                }
                return Err(e);
            },
        };
        let ghost c2 = (c1 + (r1@.len() - r2@.len())) as nat;
        let ghost d2 = d1.push(ArgModel::Long(frame_max));
        proof {
            lemma_args_step(lay.skip(1), r1@, c1, d1);
            lemma_skip_skip(buf@, c1 as int, r1@.len() - r2@.len());
            assert(lay.skip(1).skip(1) =~= lay.skip(2));
        }
        proof {
            assert(lay.skip(2)[0] == ArgKind::Short);
            assert(parse_args(lay, buf@) == prepend(parse_args(lay.skip(2), r2@), c2, d2));
            assert(r2@ == buf@.skip(c2 as int));
        }
        let (r3, heartbeat) = match decode_u16(r2) {
            Ok(v) => v,
            Err(e) => {
                proof {
                    lemma_args_step(lay.skip(2), r2@, c2, d2);
                }
                return Err(e);
            },
        };
        let ghost c3 = (c2 + (r2@.len() - r3@.len())) as nat;
        let ghost d3 = d2.push(ArgModel::Short(heartbeat));
        proof {
            lemma_args_step(lay.skip(2), r2@, c2, d2);
            lemma_skip_skip(buf@, c2 as int, r2@.len() - r3@.len());
            assert(lay.skip(2).skip(1) =~= lay.skip(3));
        }
        let r = ConnectionTuneOk { channel_max, frame_max, heartbeat };
        proof {
            assert(lay.skip(3) =~= Seq::<ArgKind>::empty());
            assert(r@ =~= d3);
        }
        Ok((r3, r))
    }
}

/// Arguments of `Connection.Open`.
#[derive(Debug)]
pub struct ConnectionOpen {
    pub vhost: ShortStr,
    pub capabilities: ShortStr,
    pub insist: bool,
}

impl View for ConnectionOpen {
    type V = Seq<ArgModel>;

    open spec fn view(&self) -> Seq<ArgModel> {
        seq![ArgModel::ShortStr(self.vhost@)] + (seq![ArgModel::ShortStr(self.capabilities@)] + (seq![ArgModel::Bits(seq![self.insist] + Seq::<bool>::empty())] + Seq::<ArgModel>::empty()))
    }
}

impl ConnectionOpen {
    /// The wire types of the fields, in order.
    pub open spec fn layout() -> Seq<ArgKind> {
        seq![ArgKind::ShortStr] + (seq![ArgKind::ShortStr] + (seq![ArgKind::Bits(1)] + Seq::<ArgKind>::empty()))
    }

    /// Every field table in the arguments has a body within a `u32` length.
    pub open spec fn encodable(&self) -> bool {
        true
    }

    pub fn encode(&self, out: &mut Vec<u8>)
        requires
            self.encodable(),
        ensures
            final(out)@ == old(out)@ + enc_args(self@),
    {
        proof {
            reveal_with_fuel(enc_args, 4);
            reveal_with_fuel(pack_bits, 2);
        }
        self.vhost.encode(out);
        self.capabilities.encode(out);
        put_u8(out, bit(self.insist));
        assert(out@ =~= old(out)@ + enc_args(self@));
    }

    #[verifier::spinoff_prover]
    #[verifier::rlimit(100)]
    pub fn decode(buf: &[u8]) -> (r: Result<(&[u8], ConnectionOpen), FrameDecodeErr>)
        ensures
            agrees(buf@, r, parse_args(ConnectionOpen::layout(), buf@)),
    {
        let ghost lay = ConnectionOpen::layout();
        let ghost c0: nat = 0;
        let ghost d0 = Seq::<ArgModel>::empty();
        proof {
            lemma_prepend_start(parse_args(lay, buf@));
            assert(lay.skip(0) =~= lay);
            assert(buf@.skip(0) =~= buf@);
        }
        let r0 = buf;
        proof {
            assert(lay.skip(0)[0] == ArgKind::ShortStr);
            assert(parse_args(lay, buf@) == prepend(parse_args(lay.skip(0), r0@), c0, d0));
            assert(r0@ == buf@.skip(c0 as int));
        }
        let (r1, vhost) = match ShortStr::decode(r0) {
            Ok(v) => v,
            Err(e) => {
                proof {
                    lemma_args_step(lay.skip(0), r0@, c0, d0);
                }
                return Err(e);
            },
        };
        let ghost c1 = (c0 + (r0@.len() - r1@.len())) as nat;
        let ghost d1 = d0.push(ArgModel::ShortStr(vhost@));
        proof {
            lemma_args_step(lay.skip(0), r0@, c0, d0);
            lemma_skip_skip(buf@, c0 as int, r0@.len() - r1@.len());
            assert(lay.skip(0).skip(1) =~= lay.skip(1));
        }
        proof {
            assert(lay.skip(1)[0] == ArgKind::ShortStr);
            assert(parse_args(lay, buf@) == prepend(parse_args(lay.skip(1), r1@), c1, d1));
            assert(r1@ == buf@.skip(c1 as int));
        }
        let (r2, capabilities) = match ShortStr::decode(r1) {
            Ok(v) => v,
            Err(e) => {
                proof {
                    lemma_args_step(lay.skip(1), r1@, c1, d1);
                }
                return Err(e);
            },
        };
        let ghost c2 = (c1 + (r1@.len() - r2@.len())) as nat;
        let ghost d2 = d1.push(ArgModel::ShortStr(capabilities@));
        proof {
            lemma_args_step(lay.skip(1), r1@, c1, d1);
            lemma_skip_skip(buf@, c1 as int, r1@.len() - r2@.len());
            assert(lay.skip(1).skip(1) =~= lay.skip(2));
        }
        proof {
            assert(lay.skip(2)[0] == ArgKind::Bits(1));
            assert(parse_args(lay, buf@) == prepend(parse_args(lay.skip(2), r2@), c2, d2));
            assert(r2@ == buf@.skip(c2 as int));
        }
        let (r3, bits) = match decode_u8(r2) {
            Ok(v) => v,
            Err(e) => {
                proof {
                    lemma_args_step(lay.skip(2), r2@, c2, d2);
                }
                return Err(e);
            },
        };
        let ghost c3 = (c2 + (r2@.len() - r3@.len())) as nat;
        let ghost d3 = d2.push(ArgModel::Bits(unpack_bits(bits as int, 1)));
        proof {
            lemma_args_step(lay.skip(2), r2@, c2, d2);
            lemma_skip_skip(buf@, c2 as int, r2@.len() - r3@.len());
            assert(lay.skip(2).skip(1) =~= lay.skip(3));
        }
        let insist = bits % 2 == 1;
        let r = ConnectionOpen { vhost, capabilities, insist };
        proof {
            reveal_with_fuel(unpack_bits, 2);
            assert(lay.skip(3) =~= Seq::<ArgKind>::empty());
            assert(r@ =~= d3);
        }
        Ok((r3, r))
    }
}

/// Arguments of `Connection.OpenOk`.
#[derive(Debug)]
pub struct ConnectionOpenOk {
    pub known_hosts: ShortStr,
}

impl View for ConnectionOpenOk {
    type V = Seq<ArgModel>;

    open spec fn view(&self) -> Seq<ArgModel> {
        seq![ArgModel::ShortStr(self.known_hosts@)] + Seq::<ArgModel>::empty()
    }
}

impl ConnectionOpenOk {
    /// The wire types of the fields, in order.
    pub open spec fn layout() -> Seq<ArgKind> {
        seq![ArgKind::ShortStr] + Seq::<ArgKind>::empty()
    }

    /// Every field table in the arguments has a body within a `u32` length.
    pub open spec fn encodable(&self) -> bool {
        true
    }

    pub fn encode(&self, out: &mut Vec<u8>)
        requires
            self.encodable(),
        ensures
            final(out)@ == old(out)@ + enc_args(self@),
    {
        proof {
            reveal_with_fuel(enc_args, 2);
        }
        self.known_hosts.encode(out);
        assert(out@ =~= old(out)@ + enc_args(self@));
    }

    #[verifier::spinoff_prover]
    #[verifier::rlimit(100)]
    pub fn decode(buf: &[u8]) -> (r: Result<(&[u8], ConnectionOpenOk), FrameDecodeErr>)
        ensures
            agrees(buf@, r, parse_args(ConnectionOpenOk::layout(), buf@)),
    {
        let ghost lay = ConnectionOpenOk::layout();
        let ghost c0: nat = 0;
        let ghost d0 = Seq::<ArgModel>::empty();
        proof {
            lemma_prepend_start(parse_args(lay, buf@));
            assert(lay.skip(0) =~= lay);
            assert(buf@.skip(0) =~= buf@);
        }
        let r0 = buf;
        proof {
            assert(lay.skip(0)[0] == ArgKind::ShortStr);
            assert(parse_args(lay, buf@) == prepend(parse_args(lay.skip(0), r0@), c0, d0));
            assert(r0@ == buf@.skip(c0 as int));
        }
        let (r1, known_hosts) = match ShortStr::decode(r0) {
            Ok(v) => v,
            Err(e) => {
                proof {
                    lemma_args_step(lay.skip(0), r0@, c0, d0);
                }
                return Err(e);
            },
        };
        let ghost c1 = (c0 + (r0@.len() - r1@.len())) as nat;
        let ghost d1 = d0.push(ArgModel::ShortStr(known_hosts@));
        proof {
            lemma_args_step(lay.skip(0), r0@, c0, d0);
            lemma_skip_skip(buf@, c0 as int, r0@.len() - r1@.len());
            assert(lay.skip(0).skip(1) =~= lay.skip(1));
        }
        let r = ConnectionOpenOk { known_hosts };
        proof {
            assert(lay.skip(1) =~= Seq::<ArgKind>::empty());
            assert(r@ =~= d1);
        }
        Ok((r1, r))
    }
}

/// Arguments of `Connection.Close`.
#[derive(Debug)]
pub struct ConnectionClose {
    pub reply_code: u16,
    pub reply_text: ShortStr,
    pub class_id: u16,
    pub method_id: u16,
}

impl View for ConnectionClose {
    type V = Seq<ArgModel>;

    open spec fn view(&self) -> Seq<ArgModel> {
        seq![ArgModel::Short(self.reply_code)] + (seq![ArgModel::ShortStr(self.reply_text@)] + (seq![ArgModel::Short(self.class_id)] + (seq![ArgModel::Short(self.method_id)] + Seq::<ArgModel>::empty())))
    }
}

impl ConnectionClose {
    /// The wire types of the fields, in order.
    pub open spec fn layout() -> Seq<ArgKind> {
        seq![ArgKind::Short] + (seq![ArgKind::ShortStr] + (seq![ArgKind::Short] + (seq![ArgKind::Short] + Seq::<ArgKind>::empty())))
    }

    /// Every field table in the arguments has a body within a `u32` length.
    pub open spec fn encodable(&self) -> bool {
        true
    }

    pub fn encode(&self, out: &mut Vec<u8>)
        requires
            self.encodable(),
        ensures
            final(out)@ == old(out)@ + enc_args(self@),
    {
        proof {
            reveal_with_fuel(enc_args, 5);
        }
        put_u16(out, self.reply_code);
        self.reply_text.encode(out);
        put_u16(out, self.class_id);
        put_u16(out, self.method_id);
        assert(out@ =~= old(out)@ + enc_args(self@));
    }

    #[verifier::spinoff_prover]
    #[verifier::rlimit(100)]
    pub fn decode(buf: &[u8]) -> (r: Result<(&[u8], ConnectionClose), FrameDecodeErr>)
        ensures
            agrees(buf@, r, parse_args(ConnectionClose::layout(), buf@)),
    {
        let ghost lay = ConnectionClose::layout();
        let ghost c0: nat = 0;
        let ghost d0 = Seq::<ArgModel>::empty();
        proof {
            lemma_prepend_start(parse_args(lay, buf@));
            assert(lay.skip(0) =~= lay);
            assert(buf@.skip(0) =~= buf@);
        }
        let r0 = buf;
        proof {
            assert(lay.skip(0)[0] == ArgKind::Short);
            assert(parse_args(lay, buf@) == prepend(parse_args(lay.skip(0), r0@), c0, d0));
            assert(r0@ == buf@.skip(c0 as int));
        }
        let (r1, reply_code) = match decode_u16(r0) {
            Ok(v) => v,
            Err(e) => {
                proof {
                    lemma_args_step(lay.skip(0), r0@, c0, d0);
                }
                return Err(e);
            },
        };
        let ghost c1 = (c0 + (r0@.len() - r1@.len())) as nat;
        let ghost d1 = d0.push(ArgModel::Short(reply_code));
        proof {
            lemma_args_step(lay.skip(0), r0@, c0, d0);
            lemma_skip_skip(buf@, c0 as int, r0@.len() - r1@.len());
            assert(lay.skip(0).skip(1) =~= lay.skip(1));
        }
        proof {
            assert(lay.skip(1)[0] == ArgKind::ShortStr);
            assert(parse_args(lay, buf@) == prepend(parse_args(lay.skip(1), r1@), c1, d1));
            assert(r1@ == buf@.skip(c1 as int));
        }
        let (r2, reply_text) = match ShortStr::decode(r1) {
            Ok(v) => v,
            Err(e) => {
                proof {
                    lemma_args_step(lay.skip(1), r1@, c1, d1);
                }
                return Err(e);
            },
        };
        let ghost c2 = (c1 + (r1@.len() - r2@.len())) as nat;
        let ghost d2 = d1.push(ArgModel::ShortStr(reply_text@));
        proof {
            lemma_args_step(lay.skip(1), r1@, c1, d1);
            lemma_skip_skip(buf@, c1 as int, r1@.len() - r2@.len());
            assert(lay.skip(1).skip(1) =~= lay.skip(2));
        }
        proof {
            assert(lay.skip(2)[0] == ArgKind::Short);
            assert(parse_args(lay, buf@) == prepend(parse_args(lay.skip(2), r2@), c2, d2));
            assert(r2@ == buf@.skip(c2 as int));
        }
        let (r3, class_id) = match decode_u16(r2) {
            Ok(v) => v,
            Err(e) => {
                proof {
                    lemma_args_step(lay.skip(2), r2@, c2, d2);
                }
                return Err(e);
            },
        };
        let ghost c3 = (c2 + (r2@.len() - r3@.len())) as nat;
        let ghost d3 = d2.push(ArgModel::Short(class_id));
        proof {
            lemma_args_step(lay.skip(2), r2@, c2, d2);
            lemma_skip_skip(buf@, c2 as int, r2@.len() - r3@.len());
            assert(lay.skip(2).skip(1) =~= lay.skip(3));
        }
        proof {
            assert(lay.skip(3)[0] == ArgKind::Short);
            assert(parse_args(lay, buf@) == prepend(parse_args(lay.skip(3), r3@), c3, d3));
            assert(r3@ == buf@.skip(c3 as int));
        }
        let (r4, method_id) = match decode_u16(r3) {
            Ok(v) => v,
            Err(e) => {
                proof {
                    lemma_args_step(lay.skip(3), r3@, c3, d3);
                }
                return Err(e);
            },
        };
        let ghost c4 = (c3 + (r3@.len() - r4@.len())) as nat;
        let ghost d4 = d3.push(ArgModel::Short(method_id));
        proof {
            lemma_args_step(lay.skip(3), r3@, c3, d3);
            lemma_skip_skip(buf@, c3 as int, r3@.len() - r4@.len());
            assert(lay.skip(3).skip(1) =~= lay.skip(4));
        }
        let r = ConnectionClose { reply_code, reply_text, class_id, method_id };
        proof {
            assert(lay.skip(4) =~= Seq::<ArgKind>::empty());
            assert(r@ =~= d4);
        }
        Ok((r4, r))
    }
}

/// Arguments of `Connection.CloseOk`.
#[derive(Debug)]
pub struct ConnectionCloseOk;

impl View for ConnectionCloseOk {
    type V = Seq<ArgModel>;

    open spec fn view(&self) -> Seq<ArgModel> {
        Seq::<ArgModel>::empty()
    }
}

impl ConnectionCloseOk {
    /// The wire types of the fields, in order.
    pub open spec fn layout() -> Seq<ArgKind> {
        Seq::<ArgKind>::empty()
    }

    /// Every field table in the arguments has a body within a `u32` length.
    pub open spec fn encodable(&self) -> bool {
        true
    }

    pub fn encode(&self, out: &mut Vec<u8>)
        requires
            self.encodable(),
        ensures
            final(out)@ == old(out)@ + enc_args(self@),
    {
        assert(out@ =~= old(out)@ + enc_args(self@));
    }

    pub fn decode(buf: &[u8]) -> (r: Result<(&[u8], ConnectionCloseOk), FrameDecodeErr>)
        ensures
            agrees(buf@, r, parse_args(ConnectionCloseOk::layout(), buf@)),
    {
        assert(buf@ =~= buf@.skip(0));
        Ok((buf, ConnectionCloseOk))
    }
}

/// Arguments of `Channel.Open`.
#[derive(Debug)]
pub struct ChannelOpen {
    pub out_of_band: ShortStr,
}

impl View for ChannelOpen {
    type V = Seq<ArgModel>;

    open spec fn view(&self) -> Seq<ArgModel> {
        seq![ArgModel::ShortStr(self.out_of_band@)] + Seq::<ArgModel>::empty()
    }
}

impl ChannelOpen {
    /// The wire types of the fields, in order.
    pub open spec fn layout() -> Seq<ArgKind> {
        seq![ArgKind::ShortStr] + Seq::<ArgKind>::empty()
    }

    /// Every field table in the arguments has a body within a `u32` length.
    pub open spec fn encodable(&self) -> bool {
        true
    }

    pub fn encode(&self, out: &mut Vec<u8>)
        requires
            self.encodable(),
        ensures
            final(out)@ == old(out)@ + enc_args(self@),
    {
        proof {
            reveal_with_fuel(enc_args, 2);
        }
        self.out_of_band.encode(out);
        assert(out@ =~= old(out)@ + enc_args(self@));
    }

    #[verifier::spinoff_prover]
    #[verifier::rlimit(100)]
    pub fn decode(buf: &[u8]) -> (r: Result<(&[u8], ChannelOpen), FrameDecodeErr>)
        ensures
            agrees(buf@, r, parse_args(ChannelOpen::layout(), buf@)),
    {
        let ghost lay = ChannelOpen::layout();
        let ghost c0: nat = 0;
        let ghost d0 = Seq::<ArgModel>::empty();
        proof {
            lemma_prepend_start(parse_args(lay, buf@));
            assert(lay.skip(0) =~= lay);
            assert(buf@.skip(0) =~= buf@);
        }
        let r0 = buf;
        proof {
            assert(lay.skip(0)[0] == ArgKind::ShortStr);
            assert(parse_args(lay, buf@) == prepend(parse_args(lay.skip(0), r0@), c0, d0));
            assert(r0@ == buf@.skip(c0 as int));
        }
        let (r1, out_of_band) = match ShortStr::decode(r0) {
            Ok(v) => v,
            Err(e) => {
                proof {
                    lemma_args_step(lay.skip(0), r0@, c0, d0);
                }
                return Err(e);
            },
        };
        let ghost c1 = (c0 + (r0@.len() - r1@.len())) as nat;
        let ghost d1 = d0.push(ArgModel::ShortStr(out_of_band@));
        proof {
            lemma_args_step(lay.skip(0), r0@, c0, d0);
            lemma_skip_skip(buf@, c0 as int, r0@.len() - r1@.len());
            assert(lay.skip(0).skip(1) =~= lay.skip(1));
        }
        let r = ChannelOpen { out_of_band };
        proof {
            assert(lay.skip(1) =~= Seq::<ArgKind>::empty());
            assert(r@ =~= d1);
        }
        Ok((r1, r))
    }
}

/// Arguments of `Channel.OpenOk`.
#[derive(Debug)]
pub struct ChannelOpenOk {
    pub channel_id: LongStr,
}

impl View for ChannelOpenOk {
    type V = Seq<ArgModel>;

    open spec fn view(&self) -> Seq<ArgModel> {
        seq![ArgModel::LongStr(self.channel_id@)] + Seq::<ArgModel>::empty()
    }
}

impl ChannelOpenOk {
    /// The wire types of the fields, in order.
    pub open spec fn layout() -> Seq<ArgKind> {
        seq![ArgKind::LongStr] + Seq::<ArgKind>::empty()
    }

    /// Every field table in the arguments has a body within a `u32` length.
    pub open spec fn encodable(&self) -> bool {
        true
    }

    pub fn encode(&self, out: &mut Vec<u8>)
        requires
            self.encodable(),
        ensures
            final(out)@ == old(out)@ + enc_args(self@),
    {
        proof {
            reveal_with_fuel(enc_args, 2);
        }
        self.channel_id.encode(out);
        assert(out@ =~= old(out)@ + enc_args(self@));
    }

    #[verifier::spinoff_prover]
    #[verifier::rlimit(100)]
    pub fn decode(buf: &[u8]) -> (r: Result<(&[u8], ChannelOpenOk), FrameDecodeErr>)
        ensures
            agrees(buf@, r, parse_args(ChannelOpenOk::layout(), buf@)),
    {
        let ghost lay = ChannelOpenOk::layout();
        let ghost c0: nat = 0;
        let ghost d0 = Seq::<ArgModel>::empty();
        proof {
            lemma_prepend_start(parse_args(lay, buf@));
            assert(lay.skip(0) =~= lay);
            assert(buf@.skip(0) =~= buf@);
        }
        let r0 = buf;
        proof {
            assert(lay.skip(0)[0] == ArgKind::LongStr);
            assert(parse_args(lay, buf@) == prepend(parse_args(lay.skip(0), r0@), c0, d0));
            assert(r0@ == buf@.skip(c0 as int));
        }
        let (r1, channel_id) = match LongStr::decode(r0) {
            Ok(v) => v,
            Err(e) => {
                proof {
                    lemma_args_step(lay.skip(0), r0@, c0, d0);
                }
                return Err(e);
            },
        };
        let ghost c1 = (c0 + (r0@.len() - r1@.len())) as nat;
        let ghost d1 = d0.push(ArgModel::LongStr(channel_id@));
        proof {
            lemma_args_step(lay.skip(0), r0@, c0, d0);
            lemma_skip_skip(buf@, c0 as int, r0@.len() - r1@.len());
            assert(lay.skip(0).skip(1) =~= lay.skip(1));
        }
        let r = ChannelOpenOk { channel_id };
        proof {
            assert(lay.skip(1) =~= Seq::<ArgKind>::empty());
            assert(r@ =~= d1);
        }
        Ok((r1, r))
    }
}

/// Arguments of `Channel.Flow`.
#[derive(Debug)]
pub struct ChannelFlow {
    pub active: bool,
}

impl View for ChannelFlow {
    type V = Seq<ArgModel>;

    open spec fn view(&self) -> Seq<ArgModel> {
        seq![ArgModel::Bits(seq![self.active] + Seq::<bool>::empty())] + Seq::<ArgModel>::empty()
    }
}

impl ChannelFlow {
    /// The wire types of the fields, in order.
    pub open spec fn layout() -> Seq<ArgKind> {
        seq![ArgKind::Bits(1)] + Seq::<ArgKind>::empty()
    }

    /// Every field table in the arguments has a body within a `u32` length.
    pub open spec fn encodable(&self) -> bool {
        true
    }

    pub fn encode(&self, out: &mut Vec<u8>)
        requires
            self.encodable(),
        ensures
            final(out)@ == old(out)@ + enc_args(self@),
    {
        proof {
            reveal_with_fuel(enc_args, 2);
            reveal_with_fuel(pack_bits, 2);
        }
        put_u8(out, bit(self.active));
        assert(out@ =~= old(out)@ + enc_args(self@));
    }

    #[verifier::spinoff_prover]
    #[verifier::rlimit(100)]
    pub fn decode(buf: &[u8]) -> (r: Result<(&[u8], ChannelFlow), FrameDecodeErr>)
        ensures
            agrees(buf@, r, parse_args(ChannelFlow::layout(), buf@)),
    {
        let ghost lay = ChannelFlow::layout();
        let ghost c0: nat = 0;
        let ghost d0 = Seq::<ArgModel>::empty();
        proof {
            lemma_prepend_start(parse_args(lay, buf@));
            assert(lay.skip(0) =~= lay);
            assert(buf@.skip(0) =~= buf@);
        }
        let r0 = buf;
        proof {
            assert(lay.skip(0)[0] == ArgKind::Bits(1));
            assert(parse_args(lay, buf@) == prepend(parse_args(lay.skip(0), r0@), c0, d0));
            assert(r0@ == buf@.skip(c0 as int));
        }
        let (r1, bits) = match decode_u8(r0) {
            Ok(v) => v,
            Err(e) => {
                proof {
                    lemma_args_step(lay.skip(0), r0@, c0, d0);
                }
                return Err(e);
            },
        };
        let ghost c1 = (c0 + (r0@.len() - r1@.len())) as nat;
        let ghost d1 = d0.push(ArgModel::Bits(unpack_bits(bits as int, 1)));
        proof {
            lemma_args_step(lay.skip(0), r0@, c0, d0);
            lemma_skip_skip(buf@, c0 as int, r0@.len() - r1@.len());
            assert(lay.skip(0).skip(1) =~= lay.skip(1));
        }
        let active = bits % 2 == 1;
        let r = ChannelFlow { active };
        proof {
            reveal_with_fuel(unpack_bits, 2);
            assert(lay.skip(1) =~= Seq::<ArgKind>::empty());
            assert(r@ =~= d1);
        }
        Ok((r1, r))
    }
}

/// Arguments of `Channel.FlowOk`.
#[derive(Debug)]
pub struct ChannelFlowOk {
    pub active: bool,
}

impl View for ChannelFlowOk {
    type V = Seq<ArgModel>;

    open spec fn view(&self) -> Seq<ArgModel> {
        seq![ArgModel::Bits(seq![self.active] + Seq::<bool>::empty())] + Seq::<ArgModel>::empty()
    }
}

impl ChannelFlowOk {
    /// The wire types of the fields, in order.
    pub open spec fn layout() -> Seq<ArgKind> {
        seq![ArgKind::Bits(1)] + Seq::<ArgKind>::empty()
    }

    /// Every field table in the arguments has a body within a `u32` length.
    pub open spec fn encodable(&self) -> bool {
        true
    }

    pub fn encode(&self, out: &mut Vec<u8>)
        requires
            self.encodable(),
        ensures
            final(out)@ == old(out)@ + enc_args(self@),
    {
        proof {
            reveal_with_fuel(enc_args, 2);
            reveal_with_fuel(pack_bits, 2);
        }
        put_u8(out, bit(self.active));
        assert(out@ =~= old(out)@ + enc_args(self@));
    }

    #[verifier::spinoff_prover]
    #[verifier::rlimit(100)]
    pub fn decode(buf: &[u8]) -> (r: Result<(&[u8], ChannelFlowOk), FrameDecodeErr>)
        ensures
            agrees(buf@, r, parse_args(ChannelFlowOk::layout(), buf@)),
    {
        let ghost lay = ChannelFlowOk::layout();
        let ghost c0: nat = 0;
        let ghost d0 = Seq::<ArgModel>::empty();
        proof {
            lemma_prepend_start(parse_args(lay, buf@));
            assert(lay.skip(0) =~= lay);
            assert(buf@.skip(0) =~= buf@);
        }
        let r0 = buf;
        proof {
            assert(lay.skip(0)[0] == ArgKind::Bits(1));
            assert(parse_args(lay, buf@) == prepend(parse_args(lay.skip(0), r0@), c0, d0));
            assert(r0@ == buf@.skip(c0 as int));
        }
        let (r1, bits) = match decode_u8(r0) {
            Ok(v) => v,
            Err(e) => {
                proof {
                    lemma_args_step(lay.skip(0), r0@, c0, d0);
                }
                return Err(e);
            },
        };
        let ghost c1 = (c0 + (r0@.len() - r1@.len())) as nat;
        let ghost d1 = d0.push(ArgModel::Bits(unpack_bits(bits as int, 1)));
        proof {
            lemma_args_step(lay.skip(0), r0@, c0, d0);
            lemma_skip_skip(buf@, c0 as int, r0@.len() - r1@.len());
            assert(lay.skip(0).skip(1) =~= lay.skip(1));
        }
        let active = bits % 2 == 1;
        let r = ChannelFlowOk { active };
        proof {
            reveal_with_fuel(unpack_bits, 2);
            assert(lay.skip(1) =~= Seq::<ArgKind>::empty());
            assert(r@ =~= d1);
        }
        Ok((r1, r))
    }
}

/// Arguments of `Channel.Close`.
#[derive(Debug)]
pub struct ChannelClose {
    pub reply_code: u16,
    pub reply_text: ShortStr,
    pub class_id: u16,
    pub method_id: u16,
}

impl View for ChannelClose {
    type V = Seq<ArgModel>;

    open spec fn view(&self) -> Seq<ArgModel> {
        seq![ArgModel::Short(self.reply_code)] + (seq![ArgModel::ShortStr(self.reply_text@)] + (seq![ArgModel::Short(self.class_id)] + (seq![ArgModel::Short(self.method_id)] + Seq::<ArgModel>::empty())))
    }
}

impl ChannelClose {
    /// The wire types of the fields, in order.
    pub open spec fn layout() -> Seq<ArgKind> {
        seq![ArgKind::Short] + (seq![ArgKind::ShortStr] + (seq![ArgKind::Short] + (seq![ArgKind::Short] + Seq::<ArgKind>::empty())))
    }

    /// Every field table in the arguments has a body within a `u32` length.
    pub open spec fn encodable(&self) -> bool {
        true
    }

    pub fn encode(&self, out: &mut Vec<u8>)
        requires
            self.encodable(),
        ensures
            final(out)@ == old(out)@ + enc_args(self@),
    {
        proof {
            reveal_with_fuel(enc_args, 5);
        }
        put_u16(out, self.reply_code);
        self.reply_text.encode(out);
        put_u16(out, self.class_id);
        put_u16(out, self.method_id);
        assert(out@ =~= old(out)@ + enc_args(self@));
    }

    #[verifier::spinoff_prover]
    #[verifier::rlimit(100)]
    pub fn decode(buf: &[u8]) -> (r: Result<(&[u8], ChannelClose), FrameDecodeErr>)
        ensures
            agrees(buf@, r, parse_args(ChannelClose::layout(), buf@)),
    {
        let ghost lay = ChannelClose::layout();
        let ghost c0: nat = 0;
        let ghost d0 = Seq::<ArgModel>::empty();
        proof {
            lemma_prepend_start(parse_args(lay, buf@));
            assert(lay.skip(0) =~= lay);
            assert(buf@.skip(0) =~= buf@);
        }
        let r0 = buf;
        proof {
            assert(lay.skip(0)[0] == ArgKind::Short);
            assert(parse_args(lay, buf@) == prepend(parse_args(lay.skip(0), r0@), c0, d0));
            assert(r0@ == buf@.skip(c0 as int));
        }
        let (r1, reply_code) = match decode_u16(r0) {
            Ok(v) => v,
            Err(e) => {
                proof {
                    lemma_args_step(lay.skip(0), r0@, c0, d0);
                }
                return Err(e);
            },
        };
        let ghost c1 = (c0 + (r0@.len() - r1@.len())) as nat;
        let ghost d1 = d0.push(ArgModel::Short(reply_code));
        proof {
            lemma_args_step(lay.skip(0), r0@, c0, d0);
            lemma_skip_skip(buf@, c0 as int, r0@.len() - r1@.len());
            assert(lay.skip(0).skip(1) =~= lay.skip(1));
        }
        proof {
            assert(lay.skip(1)[0] == ArgKind::ShortStr);
            assert(parse_args(lay, buf@) == prepend(parse_args(lay.skip(1), r1@), c1, d1));
            assert(r1@ == buf@.skip(c1 as int));
        }
        let (r2, reply_text) = match ShortStr::decode(r1) {
            Ok(v) => v,
            Err(e) => {
                proof {
                    lemma_args_step(lay.skip(1), r1@, c1, d1);
                }
                return Err(e);
            },
        };
        let ghost c2 = (c1 + (r1@.len() - r2@.len())) as nat;
        let ghost d2 = d1.push(ArgModel::ShortStr(reply_text@));
        proof {
            lemma_args_step(lay.skip(1), r1@, c1, d1);
            lemma_skip_skip(buf@, c1 as int, r1@.len() - r2@.len());
            assert(lay.skip(1).skip(1) =~= lay.skip(2));
        }
        proof {
            assert(lay.skip(2)[0] == ArgKind::Short);
            assert(parse_args(lay, buf@) == prepend(parse_args(lay.skip(2), r2@), c2, d2));
            assert(r2@ == buf@.skip(c2 as int));
        }
        let (r3, class_id) = match decode_u16(r2) {
            Ok(v) => v,
            Err(e) => {
                proof {
                    lemma_args_step(lay.skip(2), r2@, c2, d2);
                }
                return Err(e);
            },
        };
        let ghost c3 = (c2 + (r2@.len() - r3@.len())) as nat;
        let ghost d3 = d2.push(ArgModel::Short(class_id));
        proof {
            lemma_args_step(lay.skip(2), r2@, c2, d2);
            lemma_skip_skip(buf@, c2 as int, r2@.len() - r3@.len());
            assert(lay.skip(2).skip(1) =~= lay.skip(3));
        }
        proof {
            assert(lay.skip(3)[0] == ArgKind::Short);
            assert(parse_args(lay, buf@) == prepend(parse_args(lay.skip(3), r3@), c3, d3));
            assert(r3@ == buf@.skip(c3 as int));
        }
        let (r4, method_id) = match decode_u16(r3) {
            Ok(v) => v,
            Err(e) => {
                proof {
                    lemma_args_step(lay.skip(3), r3@, c3, d3);
                }
                return Err(e);
            },
        };
        let ghost c4 = (c3 + (r3@.len() - r4@.len())) as nat;
        let ghost d4 = d3.push(ArgModel::Short(method_id));
        proof {
            lemma_args_step(lay.skip(3), r3@, c3, d3);
            lemma_skip_skip(buf@, c3 as int, r3@.len() - r4@.len());
            assert(lay.skip(3).skip(1) =~= lay.skip(4));
        }
        let r = ChannelClose { reply_code, reply_text, class_id, method_id };
        proof {
            assert(lay.skip(4) =~= Seq::<ArgKind>::empty());
            assert(r@ =~= d4);
        }
        Ok((r4, r))
    }
}

/// Arguments of `Channel.CloseOk`.
#[derive(Debug)]
pub struct ChannelCloseOk;

impl View for ChannelCloseOk {
    type V = Seq<ArgModel>;

    open spec fn view(&self) -> Seq<ArgModel> {
        Seq::<ArgModel>::empty()
    }
}

impl ChannelCloseOk {
    /// The wire types of the fields, in order.
    pub open spec fn layout() -> Seq<ArgKind> {
        Seq::<ArgKind>::empty()
    }

    /// Every field table in the arguments has a body within a `u32` length.
    pub open spec fn encodable(&self) -> bool {
        true
    }

    pub fn encode(&self, out: &mut Vec<u8>)
        requires
            self.encodable(),
        ensures
            final(out)@ == old(out)@ + enc_args(self@),
    {
        assert(out@ =~= old(out)@ + enc_args(self@));
    }

    pub fn decode(buf: &[u8]) -> (r: Result<(&[u8], ChannelCloseOk), FrameDecodeErr>)
        ensures
            agrees(buf@, r, parse_args(ChannelCloseOk::layout(), buf@)),
    {
        assert(buf@ =~= buf@.skip(0));
        Ok((buf, ChannelCloseOk))
    }
}

/// Arguments of `Access.Request`.
#[derive(Debug)]
pub struct AccessRequest {
    pub realm: ShortStr,
}

impl View for AccessRequest {
    type V = Seq<ArgModel>;

    open spec fn view(&self) -> Seq<ArgModel> {
        seq![ArgModel::ShortStr(self.realm@)] + (seq![ArgModel::Bits(Seq::<bool>::empty())] + Seq::<ArgModel>::empty())
    }
}

impl AccessRequest {
    /// The wire types of the fields, in order.
    pub open spec fn layout() -> Seq<ArgKind> {
        seq![ArgKind::ShortStr] + (seq![ArgKind::Bits(0)] + Seq::<ArgKind>::empty())
    }

    /// Every field table in the arguments has a body within a `u32` length.
    pub open spec fn encodable(&self) -> bool {
        true
    }

    pub fn encode(&self, out: &mut Vec<u8>)
        requires
            self.encodable(),
        ensures
            final(out)@ == old(out)@ + enc_args(self@),
    {
        proof {
            reveal_with_fuel(enc_args, 3);
        }
        self.realm.encode(out);
        put_u8(out, 0);
        assert(out@ =~= old(out)@ + enc_args(self@));
    }

    #[verifier::spinoff_prover]
    #[verifier::rlimit(100)]
    pub fn decode(buf: &[u8]) -> (r: Result<(&[u8], AccessRequest), FrameDecodeErr>)
        ensures
            agrees(buf@, r, parse_args(AccessRequest::layout(), buf@)),
    {
        let ghost lay = AccessRequest::layout();
        let ghost c0: nat = 0;
        let ghost d0 = Seq::<ArgModel>::empty();
        proof {
            lemma_prepend_start(parse_args(lay, buf@));
            assert(lay.skip(0) =~= lay);
            assert(buf@.skip(0) =~= buf@);
        }
        let r0 = buf;
        proof {
            assert(lay.skip(0)[0] == ArgKind::ShortStr);
            assert(parse_args(lay, buf@) == prepend(parse_args(lay.skip(0), r0@), c0, d0));
            assert(r0@ == buf@.skip(c0 as int));
        }
        let (r1, realm) = match ShortStr::decode(r0) {
            Ok(v) => v,
            Err(e) => {
                proof {
                    lemma_args_step(lay.skip(0), r0@, c0, d0);
                }
                return Err(e);
            },
        };
        let ghost c1 = (c0 + (r0@.len() - r1@.len())) as nat;
        let ghost d1 = d0.push(ArgModel::ShortStr(realm@));
        proof {
            lemma_args_step(lay.skip(0), r0@, c0, d0);
            lemma_skip_skip(buf@, c0 as int, r0@.len() - r1@.len());
            assert(lay.skip(0).skip(1) =~= lay.skip(1));
        }
        proof {
            assert(lay.skip(1)[0] == ArgKind::Bits(0));
            assert(parse_args(lay, buf@) == prepend(parse_args(lay.skip(1), r1@), c1, d1));
            assert(r1@ == buf@.skip(c1 as int));
        }
        let (r2, _filler) = match decode_u8(r1) {
            Ok(v) => v,
            Err(e) => {
                proof {
                    lemma_args_step(lay.skip(1), r1@, c1, d1);
                }
                return Err(e);
            },
        };
        let ghost c2 = (c1 + (r1@.len() - r2@.len())) as nat;
        let ghost d2 = d1.push(ArgModel::Bits(unpack_bits(_filler as int, 0)));
        proof {
            lemma_args_step(lay.skip(1), r1@, c1, d1);
            lemma_skip_skip(buf@, c1 as int, r1@.len() - r2@.len());
            assert(lay.skip(1).skip(1) =~= lay.skip(2));
        }
        let r = AccessRequest { realm };
        proof {
            assert(lay.skip(2) =~= Seq::<ArgKind>::empty());
            assert(r@ =~= d2);
        }
        Ok((r2, r))
    }
}

/// Arguments of `Access.RequestOk`.
#[derive(Debug)]
pub struct AccessRequestOk {
    pub ticket: u16,
}

impl View for AccessRequestOk {
    type V = Seq<ArgModel>;

    open spec fn view(&self) -> Seq<ArgModel> {
        seq![ArgModel::Short(self.ticket)] + Seq::<ArgModel>::empty()
    }
}

impl AccessRequestOk {
    /// The wire types of the fields, in order.
    pub open spec fn layout() -> Seq<ArgKind> {
        seq![ArgKind::Short] + Seq::<ArgKind>::empty()
    }

    /// Every field table in the arguments has a body within a `u32` length.
    pub open spec fn encodable(&self) -> bool {
        true
    }

    pub fn encode(&self, out: &mut Vec<u8>)
        requires
            self.encodable(),
        ensures
            final(out)@ == old(out)@ + enc_args(self@),
    {
        proof {
            reveal_with_fuel(enc_args, 2);
        }
        put_u16(out, self.ticket);
        assert(out@ =~= old(out)@ + enc_args(self@));
    }

    #[verifier::spinoff_prover]
    #[verifier::rlimit(100)]
    pub fn decode(buf: &[u8]) -> (r: Result<(&[u8], AccessRequestOk), FrameDecodeErr>)
        ensures
            agrees(buf@, r, parse_args(AccessRequestOk::layout(), buf@)),
    {
        let ghost lay = AccessRequestOk::layout();
        let ghost c0: nat = 0;
        let ghost d0 = Seq::<ArgModel>::empty();
        proof {
            lemma_prepend_start(parse_args(lay, buf@));
            assert(lay.skip(0) =~= lay);
            assert(buf@.skip(0) =~= buf@);
        }
        let r0 = buf;
        proof {
            assert(lay.skip(0)[0] == ArgKind::Short);
            assert(parse_args(lay, buf@) == prepend(parse_args(lay.skip(0), r0@), c0, d0));
            assert(r0@ == buf@.skip(c0 as int));
        }
        let (r1, ticket) = match decode_u16(r0) {
            Ok(v) => v,
            Err(e) => {
                proof {
                    lemma_args_step(lay.skip(0), r0@, c0, d0);
                }
                return Err(e);
            },
        };
        let ghost c1 = (c0 + (r0@.len() - r1@.len())) as nat;
        let ghost d1 = d0.push(ArgModel::Short(ticket));
        proof {
            lemma_args_step(lay.skip(0), r0@, c0, d0);
            lemma_skip_skip(buf@, c0 as int, r0@.len() - r1@.len());
            assert(lay.skip(0).skip(1) =~= lay.skip(1));
        }
        let r = AccessRequestOk { ticket };
        proof {
            assert(lay.skip(1) =~= Seq::<ArgKind>::empty());
            assert(r@ =~= d1);
        }
        Ok((r1, r))
    }
}

/// Arguments of `Exchange.Declare`.
#[derive(Debug)]
pub struct ExchangeDeclare {
    pub ticket: u16,
    pub exchange_name: ShortStr,
    pub exchange_type: ShortStr,
    pub passive: bool,
    pub durable: bool,
    pub auto_delete: bool,
    pub internal: bool,
    pub no_wait: bool,
    pub args: FieldTable,
}

impl View for ExchangeDeclare {
    type V = Seq<ArgModel>;

    open spec fn view(&self) -> Seq<ArgModel> {
        seq![ArgModel::Short(self.ticket)] + (seq![ArgModel::ShortStr(self.exchange_name@)] + (seq![ArgModel::ShortStr(self.exchange_type@)] + (seq![ArgModel::Bits(seq![self.passive] + (seq![self.durable] + (seq![self.auto_delete] + (seq![self.internal] + (seq![self.no_wait] + Seq::<bool>::empty())))))] + (seq![ArgModel::Table(self.args@)] + Seq::<ArgModel>::empty()))))
    }
}

impl ExchangeDeclare {
    /// The wire types of the fields, in order.
    pub open spec fn layout() -> Seq<ArgKind> {
        seq![ArgKind::Short] + (seq![ArgKind::ShortStr] + (seq![ArgKind::ShortStr] + (seq![ArgKind::Bits(5)] + (seq![ArgKind::Table] + Seq::<ArgKind>::empty()))))
    }

    /// Every field table in the arguments has a body within a `u32` length.
    pub open spec fn encodable(&self) -> bool {
        value_fits(FieldValueModel::FieldTable(self.args@))
    }

    pub fn encode(&self, out: &mut Vec<u8>)
        requires
            self.encodable(),
        ensures
            final(out)@ == old(out)@ + enc_args(self@),
    {
        proof {
            reveal_with_fuel(enc_args, 6);
            reveal_with_fuel(pack_bits, 6);
        }
        put_u16(out, self.ticket);
        self.exchange_name.encode(out);
        self.exchange_type.encode(out);
        put_u8(out, bit(self.passive) + 2 * (bit(self.durable) + 2 * (bit(self.auto_delete) + 2 * (bit(self.internal) + 2 * (bit(self.no_wait))))));
        self.args.encode(out);
        assert(out@ =~= old(out)@ + enc_args(self@));
    }

    #[verifier::spinoff_prover]
    #[verifier::rlimit(100)]
    pub fn decode(buf: &[u8]) -> (r: Result<(&[u8], ExchangeDeclare), FrameDecodeErr>)
        ensures
            agrees(buf@, r, parse_args(ExchangeDeclare::layout(), buf@)),
    {
        let ghost lay = ExchangeDeclare::layout();
        let ghost c0: nat = 0;
        let ghost d0 = Seq::<ArgModel>::empty();
        proof {
            lemma_prepend_start(parse_args(lay, buf@));
            assert(lay.skip(0) =~= lay);
            assert(buf@.skip(0) =~= buf@);
        }
        let r0 = buf;
        proof {
            assert(lay.skip(0)[0] == ArgKind::Short);
            assert(parse_args(lay, buf@) == prepend(parse_args(lay.skip(0), r0@), c0, d0));
            assert(r0@ == buf@.skip(c0 as int));
        }
        let (r1, ticket) = match decode_u16(r0) {
            Ok(v) => v,
            Err(e) => {
                proof {
                    lemma_args_step(lay.skip(0), r0@, c0, d0);
                }
                return Err(e);
            },
        };
        let ghost c1 = (c0 + (r0@.len() - r1@.len())) as nat;
        let ghost d1 = d0.push(ArgModel::Short(ticket));
        proof {
            lemma_args_step(lay.skip(0), r0@, c0, d0);
            lemma_skip_skip(buf@, c0 as int, r0@.len() - r1@.len());
            assert(lay.skip(0).skip(1) =~= lay.skip(1));
        }
        proof {
            assert(lay.skip(1)[0] == ArgKind::ShortStr);
            assert(parse_args(lay, buf@) == prepend(parse_args(lay.skip(1), r1@), c1, d1));
            assert(r1@ == buf@.skip(c1 as int));
        }
        let (r2, exchange_name) = match ShortStr::decode(r1) {
            Ok(v) => v,
            Err(e) => {
                proof {
                    lemma_args_step(lay.skip(1), r1@, c1, d1);
                }
                return Err(e);
            },
        };
        let ghost c2 = (c1 + (r1@.len() - r2@.len())) as nat;
        let ghost d2 = d1.push(ArgModel::ShortStr(exchange_name@));
        proof {
            lemma_args_step(lay.skip(1), r1@, c1, d1);
            lemma_skip_skip(buf@, c1 as int, r1@.len() - r2@.len());
            assert(lay.skip(1).skip(1) =~= lay.skip(2));
        }
        proof {
            assert(lay.skip(2)[0] == ArgKind::ShortStr);
            assert(parse_args(lay, buf@) == prepend(parse_args(lay.skip(2), r2@), c2, d2));
            assert(r2@ == buf@.skip(c2 as int));
        }
        let (r3, exchange_type) = match ShortStr::decode(r2) {
            Ok(v) => v,
            Err(e) => {
                proof {
                    lemma_args_step(lay.skip(2), r2@, c2, d2);
                }
                return Err(e);
            },
        };
        let ghost c3 = (c2 + (r2@.len() - r3@.len())) as nat;
        let ghost d3 = d2.push(ArgModel::ShortStr(exchange_type@));
        proof {
            lemma_args_step(lay.skip(2), r2@, c2, d2);
            lemma_skip_skip(buf@, c2 as int, r2@.len() - r3@.len());
            assert(lay.skip(2).skip(1) =~= lay.skip(3));
        }
        proof {
            assert(lay.skip(3)[0] == ArgKind::Bits(5));
            assert(parse_args(lay, buf@) == prepend(parse_args(lay.skip(3), r3@), c3, d3));
            assert(r3@ == buf@.skip(c3 as int));
        }
        let (r4, bits) = match decode_u8(r3) {
            Ok(v) => v,
            Err(e) => {
                proof {
                    lemma_args_step(lay.skip(3), r3@, c3, d3);
                }
                return Err(e);
            },
        };
        let ghost c4 = (c3 + (r3@.len() - r4@.len())) as nat;
        let ghost d4 = d3.push(ArgModel::Bits(unpack_bits(bits as int, 5)));
        proof {
            lemma_args_step(lay.skip(3), r3@, c3, d3);
            lemma_skip_skip(buf@, c3 as int, r3@.len() - r4@.len());
            assert(lay.skip(3).skip(1) =~= lay.skip(4));
        }
        let passive = bits % 2 == 1;
        let bits_1 = bits / 2;
        let durable = bits_1 % 2 == 1;
        let bits_2 = bits_1 / 2;
        let auto_delete = bits_2 % 2 == 1;
        let bits_3 = bits_2 / 2;
        let internal = bits_3 % 2 == 1;
        let bits_4 = bits_3 / 2;
        let no_wait = bits_4 % 2 == 1;
        proof {
            assert(lay.skip(4)[0] == ArgKind::Table);
            assert(parse_args(lay, buf@) == prepend(parse_args(lay.skip(4), r4@), c4, d4));
            assert(r4@ == buf@.skip(c4 as int));
        }
        let (r5, args) = match FieldTable::decode(r4) {
            Ok(v) => v,
            Err(e) => {
                proof {
                    lemma_args_step(lay.skip(4), r4@, c4, d4);
                }
                return Err(e);
            },
        };
        let ghost c5 = (c4 + (r4@.len() - r5@.len())) as nat;
        let ghost d5 = d4.push(ArgModel::Table(args@));
        proof {
            lemma_args_step(lay.skip(4), r4@, c4, d4);
            lemma_skip_skip(buf@, c4 as int, r4@.len() - r5@.len());
            assert(lay.skip(4).skip(1) =~= lay.skip(5));
        }
        let r = ExchangeDeclare { ticket, exchange_name, exchange_type, passive, durable, auto_delete, internal, no_wait, args };
        proof {
            reveal_with_fuel(unpack_bits, 6);
            assert(lay.skip(5) =~= Seq::<ArgKind>::empty());
            assert(r@ =~= d5);
        }
        Ok((r5, r))
    }
}

/// Arguments of `Exchange.DeclareOk`.
#[derive(Debug)]
pub struct ExchangeDeclareOk;

impl View for ExchangeDeclareOk {
    type V = Seq<ArgModel>;

    open spec fn view(&self) -> Seq<ArgModel> {
        Seq::<ArgModel>::empty()
    }
}

impl ExchangeDeclareOk {
    /// The wire types of the fields, in order.
    pub open spec fn layout() -> Seq<ArgKind> {
        Seq::<ArgKind>::empty()
    }

    /// Every field table in the arguments has a body within a `u32` length.
    pub open spec fn encodable(&self) -> bool {
        true
    }

    pub fn encode(&self, out: &mut Vec<u8>)
        requires
            self.encodable(),
        ensures
            final(out)@ == old(out)@ + enc_args(self@),
    {
        assert(out@ =~= old(out)@ + enc_args(self@));
    }

    pub fn decode(buf: &[u8]) -> (r: Result<(&[u8], ExchangeDeclareOk), FrameDecodeErr>)
        ensures
            agrees(buf@, r, parse_args(ExchangeDeclareOk::layout(), buf@)),
    {
        assert(buf@ =~= buf@.skip(0));
        Ok((buf, ExchangeDeclareOk))
    }
}

/// Arguments of `Exchange.Delete`.
#[derive(Debug)]
pub struct ExchangeDelete {
    pub ticket: u16,
    pub exchange_name: ShortStr,
    pub if_unused: bool,
    pub no_wait: bool,
}

impl View for ExchangeDelete {
    type V = Seq<ArgModel>;

    open spec fn view(&self) -> Seq<ArgModel> {
        seq![ArgModel::Short(self.ticket)] + (seq![ArgModel::ShortStr(self.exchange_name@)] + (seq![ArgModel::Bits(seq![self.if_unused] + (seq![self.no_wait] + Seq::<bool>::empty()))] + Seq::<ArgModel>::empty()))
    }
}

impl ExchangeDelete {
    /// The wire types of the fields, in order.
    pub open spec fn layout() -> Seq<ArgKind> {
        seq![ArgKind::Short] + (seq![ArgKind::ShortStr] + (seq![ArgKind::Bits(2)] + Seq::<ArgKind>::empty()))
    }

    /// Every field table in the arguments has a body within a `u32` length.
    pub open spec fn encodable(&self) -> bool {
        true
    }

    pub fn encode(&self, out: &mut Vec<u8>)
        requires
            self.encodable(),
        ensures
            final(out)@ == old(out)@ + enc_args(self@),
    {
        proof {
            reveal_with_fuel(enc_args, 4);
            reveal_with_fuel(pack_bits, 3);
        }
        put_u16(out, self.ticket);
        self.exchange_name.encode(out);
        put_u8(out, bit(self.if_unused) + 2 * (bit(self.no_wait)));
        assert(out@ =~= old(out)@ + enc_args(self@));
    }

    #[verifier::spinoff_prover]
    #[verifier::rlimit(100)]
    pub fn decode(buf: &[u8]) -> (r: Result<(&[u8], ExchangeDelete), FrameDecodeErr>)
        ensures
            agrees(buf@, r, parse_args(ExchangeDelete::layout(), buf@)),
    {
        let ghost lay = ExchangeDelete::layout();
        let ghost c0: nat = 0;
        let ghost d0 = Seq::<ArgModel>::empty();
        proof {
            lemma_prepend_start(parse_args(lay, buf@));
            assert(lay.skip(0) =~= lay);
            assert(buf@.skip(0) =~= buf@);
        }
        let r0 = buf;
        proof {
            assert(lay.skip(0)[0] == ArgKind::Short);
            assert(parse_args(lay, buf@) == prepend(parse_args(lay.skip(0), r0@), c0, d0));
            assert(r0@ == buf@.skip(c0 as int));
        }
        let (r1, ticket) = match decode_u16(r0) {
            Ok(v) => v,
            Err(e) => {
                proof {
                    lemma_args_step(lay.skip(0), r0@, c0, d0);
                }
                return Err(e);
            },
        };
        let ghost c1 = (c0 + (r0@.len() - r1@.len())) as nat;
        let ghost d1 = d0.push(ArgModel::Short(ticket));
        proof {
            lemma_args_step(lay.skip(0), r0@, c0, d0);
            lemma_skip_skip(buf@, c0 as int, r0@.len() - r1@.len());
            assert(lay.skip(0).skip(1) =~= lay.skip(1));
        }
        proof {
            assert(lay.skip(1)[0] == ArgKind::ShortStr);
            assert(parse_args(lay, buf@) == prepend(parse_args(lay.skip(1), r1@), c1, d1));
            assert(r1@ == buf@.skip(c1 as int));
        }
        let (r2, exchange_name) = match ShortStr::decode(r1) {
            Ok(v) => v,
            Err(e) => {
                proof {
                    lemma_args_step(lay.skip(1), r1@, c1, d1);
                }
                return Err(e);
            },
        };
        let ghost c2 = (c1 + (r1@.len() - r2@.len())) as nat;
        let ghost d2 = d1.push(ArgModel::ShortStr(exchange_name@));
        proof {
            lemma_args_step(lay.skip(1), r1@, c1, d1);
            lemma_skip_skip(buf@, c1 as int, r1@.len() - r2@.len());
            assert(lay.skip(1).skip(1) =~= lay.skip(2));
        }
        proof {
            assert(lay.skip(2)[0] == ArgKind::Bits(2));
            assert(parse_args(lay, buf@) == prepend(parse_args(lay.skip(2), r2@), c2, d2));
            assert(r2@ == buf@.skip(c2 as int));
        }
        let (r3, bits) = match decode_u8(r2) {
            Ok(v) => v,
            Err(e) => {
                proof {
                    lemma_args_step(lay.skip(2), r2@, c2, d2);
                }
                return Err(e);
            },
        };
        let ghost c3 = (c2 + (r2@.len() - r3@.len())) as nat;
        let ghost d3 = d2.push(ArgModel::Bits(unpack_bits(bits as int, 2)));
        proof {
            lemma_args_step(lay.skip(2), r2@, c2, d2);
            lemma_skip_skip(buf@, c2 as int, r2@.len() - r3@.len());
            assert(lay.skip(2).skip(1) =~= lay.skip(3));
        }
        let if_unused = bits % 2 == 1;
        let bits_1 = bits / 2;
        let no_wait = bits_1 % 2 == 1;
        let r = ExchangeDelete { ticket, exchange_name, if_unused, no_wait };
        proof {
            reveal_with_fuel(unpack_bits, 3);
            assert(lay.skip(3) =~= Seq::<ArgKind>::empty());
            assert(r@ =~= d3);
        }
        Ok((r3, r))
    }
}

/// Arguments of `Exchange.DeleteOk`.
#[derive(Debug)]
pub struct ExchangeDeleteOk;

impl View for ExchangeDeleteOk {
    type V = Seq<ArgModel>;

    open spec fn view(&self) -> Seq<ArgModel> {
        Seq::<ArgModel>::empty()
    }
}

impl ExchangeDeleteOk {
    /// The wire types of the fields, in order.
    pub open spec fn layout() -> Seq<ArgKind> {
        Seq::<ArgKind>::empty()
    }

    /// Every field table in the arguments has a body within a `u32` length.
    pub open spec fn encodable(&self) -> bool {
        true
    }

    pub fn encode(&self, out: &mut Vec<u8>)
        requires
            self.encodable(),
        ensures
            final(out)@ == old(out)@ + enc_args(self@),
    {
        assert(out@ =~= old(out)@ + enc_args(self@));
    }

    pub fn decode(buf: &[u8]) -> (r: Result<(&[u8], ExchangeDeleteOk), FrameDecodeErr>)
        ensures
            agrees(buf@, r, parse_args(ExchangeDeleteOk::layout(), buf@)),
    {
        assert(buf@ =~= buf@.skip(0));
        Ok((buf, ExchangeDeleteOk))
    }
}

/// Arguments of `Exchange.Bind`.
#[derive(Debug)]
pub struct ExchangeBind {
    pub ticket: u16,
    pub destination: ShortStr,
    pub source: ShortStr,
    pub routing_key: ShortStr,
    pub no_wait: bool,
    pub args: FieldTable,
}

impl View for ExchangeBind {
    type V = Seq<ArgModel>;

    open spec fn view(&self) -> Seq<ArgModel> {
        seq![ArgModel::Short(self.ticket)] + (seq![ArgModel::ShortStr(self.destination@)] + (seq![ArgModel::ShortStr(self.source@)] + (seq![ArgModel::ShortStr(self.routing_key@)] + (seq![ArgModel::Bits(seq![self.no_wait] + Seq::<bool>::empty())] + (seq![ArgModel::Table(self.args@)] + Seq::<ArgModel>::empty())))))
    }
}

impl ExchangeBind {
    /// The wire types of the fields, in order.
    pub open spec fn layout() -> Seq<ArgKind> {
        seq![ArgKind::Short] + (seq![ArgKind::ShortStr] + (seq![ArgKind::ShortStr] + (seq![ArgKind::ShortStr] + (seq![ArgKind::Bits(1)] + (seq![ArgKind::Table] + Seq::<ArgKind>::empty())))))
    }

    /// Every field table in the arguments has a body within a `u32` length.
    pub open spec fn encodable(&self) -> bool {
        value_fits(FieldValueModel::FieldTable(self.args@))
    }

    pub fn encode(&self, out: &mut Vec<u8>)
        requires
            self.encodable(),
        ensures
            final(out)@ == old(out)@ + enc_args(self@),
    {
        proof {
            reveal_with_fuel(enc_args, 7);
            reveal_with_fuel(pack_bits, 2);
        }
        put_u16(out, self.ticket);
        self.destination.encode(out);
        self.source.encode(out);
        self.routing_key.encode(out);
        put_u8(out, bit(self.no_wait));
        self.args.encode(out);
        assert(out@ =~= old(out)@ + enc_args(self@));
    }

    #[verifier::spinoff_prover]
    #[verifier::rlimit(100)]
    pub fn decode(buf: &[u8]) -> (r: Result<(&[u8], ExchangeBind), FrameDecodeErr>)
        ensures
            agrees(buf@, r, parse_args(ExchangeBind::layout(), buf@)),
    {
        let ghost lay = ExchangeBind::layout();
        let ghost c0: nat = 0;
        let ghost d0 = Seq::<ArgModel>::empty();
        proof {
            lemma_prepend_start(parse_args(lay, buf@));
            assert(lay.skip(0) =~= lay);
            assert(buf@.skip(0) =~= buf@);
        }
        let r0 = buf;
        proof {
            assert(lay.skip(0)[0] == ArgKind::Short);
            assert(parse_args(lay, buf@) == prepend(parse_args(lay.skip(0), r0@), c0, d0));
            assert(r0@ == buf@.skip(c0 as int));
        }
        let (r1, ticket) = match decode_u16(r0) {
            Ok(v) => v,
            Err(e) => {
                proof {
                    lemma_args_step(lay.skip(0), r0@, c0, d0);
                }
                return Err(e);
            },
        };
        let ghost c1 = (c0 + (r0@.len() - r1@.len())) as nat;
        let ghost d1 = d0.push(ArgModel::Short(ticket));
        proof {
            lemma_args_step(lay.skip(0), r0@, c0, d0);
            lemma_skip_skip(buf@, c0 as int, r0@.len() - r1@.len());
            assert(lay.skip(0).skip(1) =~= lay.skip(1));
        }
        proof {
            assert(lay.skip(1)[0] == ArgKind::ShortStr);
            assert(parse_args(lay, buf@) == prepend(parse_args(lay.skip(1), r1@), c1, d1));
            assert(r1@ == buf@.skip(c1 as int));
        }
        let (r2, destination) = match ShortStr::decode(r1) {
            Ok(v) => v,
            Err(e) => {
                proof {
                    lemma_args_step(lay.skip(1), r1@, c1, d1);
                }
                return Err(e);
            },
        };
        let ghost c2 = (c1 + (r1@.len() - r2@.len())) as nat;
        let ghost d2 = d1.push(ArgModel::ShortStr(destination@));
        proof {
            lemma_args_step(lay.skip(1), r1@, c1, d1);
            lemma_skip_skip(buf@, c1 as int, r1@.len() - r2@.len());
            assert(lay.skip(1).skip(1) =~= lay.skip(2));
        }
        proof {
            assert(lay.skip(2)[0] == ArgKind::ShortStr);
            assert(parse_args(lay, buf@) == prepend(parse_args(lay.skip(2), r2@), c2, d2));
            assert(r2@ == buf@.skip(c2 as int));
        }
        let (r3, source) = match ShortStr::decode(r2) {
            Ok(v) => v,
            Err(e) => {
                proof {
                    lemma_args_step(lay.skip(2), r2@, c2, d2);
                }
                return Err(e);
            },
        };
        let ghost c3 = (c2 + (r2@.len() - r3@.len())) as nat;
        let ghost d3 = d2.push(ArgModel::ShortStr(source@));
        proof {
            lemma_args_step(lay.skip(2), r2@, c2, d2);
            lemma_skip_skip(buf@, c2 as int, r2@.len() - r3@.len());
            assert(lay.skip(2).skip(1) =~= lay.skip(3));
        }
        proof {
            assert(lay.skip(3)[0] == ArgKind::ShortStr);
            assert(parse_args(lay, buf@) == prepend(parse_args(lay.skip(3), r3@), c3, d3));
            assert(r3@ == buf@.skip(c3 as int));
        }
        let (r4, routing_key) = match ShortStr::decode(r3) {
            Ok(v) => v,
            Err(e) => {
                proof {
                    lemma_args_step(lay.skip(3), r3@, c3, d3);
                }
                return Err(e);
            },
        };
        let ghost c4 = (c3 + (r3@.len() - r4@.len())) as nat;
        let ghost d4 = d3.push(ArgModel::ShortStr(routing_key@));
        proof {
            lemma_args_step(lay.skip(3), r3@, c3, d3);
            lemma_skip_skip(buf@, c3 as int, r3@.len() - r4@.len());
            assert(lay.skip(3).skip(1) =~= lay.skip(4));
        }
        proof {
            assert(lay.skip(4)[0] == ArgKind::Bits(1));
            assert(parse_args(lay, buf@) == prepend(parse_args(lay.skip(4), r4@), c4, d4));
            assert(r4@ == buf@.skip(c4 as int));
        }
        let (r5, bits) = match decode_u8(r4) {
            Ok(v) => v,
            Err(e) => {
                proof {
                    lemma_args_step(lay.skip(4), r4@, c4, d4);
                }
                return Err(e);
            },
        };
        let ghost c5 = (c4 + (r4@.len() - r5@.len())) as nat;
        let ghost d5 = d4.push(ArgModel::Bits(unpack_bits(bits as int, 1)));
        proof {
            lemma_args_step(lay.skip(4), r4@, c4, d4);
            lemma_skip_skip(buf@, c4 as int, r4@.len() - r5@.len());
            assert(lay.skip(4).skip(1) =~= lay.skip(5));
        }
        let no_wait = bits % 2 == 1;
        proof {
            assert(lay.skip(5)[0] == ArgKind::Table);
            assert(parse_args(lay, buf@) == prepend(parse_args(lay.skip(5), r5@), c5, d5));
            assert(r5@ == buf@.skip(c5 as int));
        }
        let (r6, args) = match FieldTable::decode(r5) {
            Ok(v) => v,
            Err(e) => {
                proof {
                    lemma_args_step(lay.skip(5), r5@, c5, d5);
                }
                return Err(e);
            },
        };
        let ghost c6 = (c5 + (r5@.len() - r6@.len())) as nat;
        let ghost d6 = d5.push(ArgModel::Table(args@));
        proof {
            lemma_args_step(lay.skip(5), r5@, c5, d5);
            lemma_skip_skip(buf@, c5 as int, r5@.len() - r6@.len());
            assert(lay.skip(5).skip(1) =~= lay.skip(6));
        }
        let r = ExchangeBind { ticket, destination, source, routing_key, no_wait, args };
        proof {
            reveal_with_fuel(unpack_bits, 2);
            assert(lay.skip(6) =~= Seq::<ArgKind>::empty());
            assert(r@ =~= d6);
        }
        Ok((r6, r))
    }
}

/// Arguments of `Exchange.BindOk`.
#[derive(Debug)]
pub struct ExchangeBindOk;

impl View for ExchangeBindOk {
    type V = Seq<ArgModel>;

    open spec fn view(&self) -> Seq<ArgModel> {
        Seq::<ArgModel>::empty()
    }
}

impl ExchangeBindOk {
    /// The wire types of the fields, in order.
    pub open spec fn layout() -> Seq<ArgKind> {
        Seq::<ArgKind>::empty()
    }

    /// Every field table in the arguments has a body within a `u32` length.
    pub open spec fn encodable(&self) -> bool {
        true
    }

    pub fn encode(&self, out: &mut Vec<u8>)
        requires
            self.encodable(),
        ensures
            final(out)@ == old(out)@ + enc_args(self@),
    {
        assert(out@ =~= old(out)@ + enc_args(self@));
    }

    pub fn decode(buf: &[u8]) -> (r: Result<(&[u8], ExchangeBindOk), FrameDecodeErr>)
        ensures
            agrees(buf@, r, parse_args(ExchangeBindOk::layout(), buf@)),
    {
        assert(buf@ =~= buf@.skip(0));
        Ok((buf, ExchangeBindOk))
    }
}

/// Arguments of `Exchange.Unbind`.
#[derive(Debug)]
pub struct ExchangeUnbind {
    pub ticket: u16,
    pub destination: ShortStr,
    pub source: ShortStr,
    pub routing_key: ShortStr,
    pub no_wait: bool,
    pub args: FieldTable,
}

impl View for ExchangeUnbind {
    type V = Seq<ArgModel>;

    open spec fn view(&self) -> Seq<ArgModel> {
        seq![ArgModel::Short(self.ticket)] + (seq![ArgModel::ShortStr(self.destination@)] + (seq![ArgModel::ShortStr(self.source@)] + (seq![ArgModel::ShortStr(self.routing_key@)] + (seq![ArgModel::Bits(seq![self.no_wait] + Seq::<bool>::empty())] + (seq![ArgModel::Table(self.args@)] + Seq::<ArgModel>::empty())))))
    }
}

impl ExchangeUnbind {
    /// The wire types of the fields, in order.
    pub open spec fn layout() -> Seq<ArgKind> {
        seq![ArgKind::Short] + (seq![ArgKind::ShortStr] + (seq![ArgKind::ShortStr] + (seq![ArgKind::ShortStr] + (seq![ArgKind::Bits(1)] + (seq![ArgKind::Table] + Seq::<ArgKind>::empty())))))
    }

    /// Every field table in the arguments has a body within a `u32` length.
    pub open spec fn encodable(&self) -> bool {
        value_fits(FieldValueModel::FieldTable(self.args@))
    }

    pub fn encode(&self, out: &mut Vec<u8>)
        requires
            self.encodable(),
        ensures
            final(out)@ == old(out)@ + enc_args(self@),
    {
        proof {
            reveal_with_fuel(enc_args, 7);
            reveal_with_fuel(pack_bits, 2);
        }
        put_u16(out, self.ticket);
        self.destination.encode(out);
        self.source.encode(out);
        self.routing_key.encode(out);
        put_u8(out, bit(self.no_wait));
        self.args.encode(out);
        assert(out@ =~= old(out)@ + enc_args(self@));
    }

    #[verifier::spinoff_prover]
    #[verifier::rlimit(100)]
    pub fn decode(buf: &[u8]) -> (r: Result<(&[u8], ExchangeUnbind), FrameDecodeErr>)
        ensures
            agrees(buf@, r, parse_args(ExchangeUnbind::layout(), buf@)),
    {
        let ghost lay = ExchangeUnbind::layout();
        let ghost c0: nat = 0;
        let ghost d0 = Seq::<ArgModel>::empty();
        proof {
            lemma_prepend_start(parse_args(lay, buf@));
            assert(lay.skip(0) =~= lay);
            assert(buf@.skip(0) =~= buf@);
        }
        let r0 = buf;
        proof {
            assert(lay.skip(0)[0] == ArgKind::Short);
            assert(parse_args(lay, buf@) == prepend(parse_args(lay.skip(0), r0@), c0, d0));
            assert(r0@ == buf@.skip(c0 as int));
        }
        let (r1, ticket) = match decode_u16(r0) {
            Ok(v) => v,
            Err(e) => {
                proof {
                    lemma_args_step(lay.skip(0), r0@, c0, d0);
                }
                return Err(e);
            },
        };
        let ghost c1 = (c0 + (r0@.len() - r1@.len())) as nat;
        let ghost d1 = d0.push(ArgModel::Short(ticket));
        proof {
            lemma_args_step(lay.skip(0), r0@, c0, d0);
            lemma_skip_skip(buf@, c0 as int, r0@.len() - r1@.len());
            assert(lay.skip(0).skip(1) =~= lay.skip(1));
        }
        proof {
            assert(lay.skip(1)[0] == ArgKind::ShortStr);
            assert(parse_args(lay, buf@) == prepend(parse_args(lay.skip(1), r1@), c1, d1));
            assert(r1@ == buf@.skip(c1 as int));
        }
        let (r2, destination) = match ShortStr::decode(r1) {
            Ok(v) => v,
            Err(e) => {
                proof {
                    lemma_args_step(lay.skip(1), r1@, c1, d1);
                }
                return Err(e);
            },
        };
        let ghost c2 = (c1 + (r1@.len() - r2@.len())) as nat;
        let ghost d2 = d1.push(ArgModel::ShortStr(destination@));
        proof {
            lemma_args_step(lay.skip(1), r1@, c1, d1);
            lemma_skip_skip(buf@, c1 as int, r1@.len() - r2@.len());
            assert(lay.skip(1).skip(1) =~= lay.skip(2));
        }
        proof {
            assert(lay.skip(2)[0] == ArgKind::ShortStr);
            assert(parse_args(lay, buf@) == prepend(parse_args(lay.skip(2), r2@), c2, d2));
            assert(r2@ == buf@.skip(c2 as int));
        }
        let (r3, source) = match ShortStr::decode(r2) {
            Ok(v) => v,
            Err(e) => {
                proof {
                    lemma_args_step(lay.skip(2), r2@, c2, d2);
                }
                return Err(e);
            },
        };
        let ghost c3 = (c2 + (r2@.len() - r3@.len())) as nat;
        let ghost d3 = d2.push(ArgModel::ShortStr(source@));
        proof {
            lemma_args_step(lay.skip(2), r2@, c2, d2);
            lemma_skip_skip(buf@, c2 as int, r2@.len() - r3@.len());
            assert(lay.skip(2).skip(1) =~= lay.skip(3));
        }
        proof {
            assert(lay.skip(3)[0] == ArgKind::ShortStr);
            assert(parse_args(lay, buf@) == prepend(parse_args(lay.skip(3), r3@), c3, d3));
            assert(r3@ == buf@.skip(c3 as int));
        }
        let (r4, routing_key) = match ShortStr::decode(r3) {
            Ok(v) => v,
            Err(e) => {
                proof {
                    lemma_args_step(lay.skip(3), r3@, c3, d3);
                }
                return Err(e);
            },
        };
        let ghost c4 = (c3 + (r3@.len() - r4@.len())) as nat;
        let ghost d4 = d3.push(ArgModel::ShortStr(routing_key@));
        proof {
            lemma_args_step(lay.skip(3), r3@, c3, d3);
            lemma_skip_skip(buf@, c3 as int, r3@.len() - r4@.len());
            assert(lay.skip(3).skip(1) =~= lay.skip(4));
        }
        proof {
            assert(lay.skip(4)[0] == ArgKind::Bits(1));
            assert(parse_args(lay, buf@) == prepend(parse_args(lay.skip(4), r4@), c4, d4));
            assert(r4@ == buf@.skip(c4 as int));
        }
        let (r5, bits) = match decode_u8(r4) {
            Ok(v) => v,
            Err(e) => {
                proof {
                    lemma_args_step(lay.skip(4), r4@, c4, d4);
                }
                return Err(e);
            },
        };
        let ghost c5 = (c4 + (r4@.len() - r5@.len())) as nat;
        let ghost d5 = d4.push(ArgModel::Bits(unpack_bits(bits as int, 1)));
        proof {
            lemma_args_step(lay.skip(4), r4@, c4, d4);
            lemma_skip_skip(buf@, c4 as int, r4@.len() - r5@.len());
            assert(lay.skip(4).skip(1) =~= lay.skip(5));
        }
        let no_wait = bits % 2 == 1;
        proof {
            assert(lay.skip(5)[0] == ArgKind::Table);
            assert(parse_args(lay, buf@) == prepend(parse_args(lay.skip(5), r5@), c5, d5));
            assert(r5@ == buf@.skip(c5 as int));
        }
        let (r6, args) = match FieldTable::decode(r5) {
            Ok(v) => v,
            Err(e) => {
                proof {
                    lemma_args_step(lay.skip(5), r5@, c5, d5);
                }
                return Err(e);
            },
        };
        let ghost c6 = (c5 + (r5@.len() - r6@.len())) as nat;
        let ghost d6 = d5.push(ArgModel::Table(args@));
        proof {
            lemma_args_step(lay.skip(5), r5@, c5, d5);
            lemma_skip_skip(buf@, c5 as int, r5@.len() - r6@.len());
            assert(lay.skip(5).skip(1) =~= lay.skip(6));
        }
        let r = ExchangeUnbind { ticket, destination, source, routing_key, no_wait, args };
        proof {
            reveal_with_fuel(unpack_bits, 2);
            assert(lay.skip(6) =~= Seq::<ArgKind>::empty());
            assert(r@ =~= d6);
        }
        Ok((r6, r))
    }
}

/// Arguments of `Exchange.UnbindOk`.
#[derive(Debug)]
pub struct ExchangeUnbindOk;

impl View for ExchangeUnbindOk {
    type V = Seq<ArgModel>;

    open spec fn view(&self) -> Seq<ArgModel> {
        Seq::<ArgModel>::empty()
    }
}

impl ExchangeUnbindOk {
    /// The wire types of the fields, in order.
    pub open spec fn layout() -> Seq<ArgKind> {
        Seq::<ArgKind>::empty()
    }

    /// Every field table in the arguments has a body within a `u32` length.
    pub open spec fn encodable(&self) -> bool {
        true
    }

    pub fn encode(&self, out: &mut Vec<u8>)
        requires
            self.encodable(),
        ensures
            final(out)@ == old(out)@ + enc_args(self@),
    {
        assert(out@ =~= old(out)@ + enc_args(self@));
    }

    pub fn decode(buf: &[u8]) -> (r: Result<(&[u8], ExchangeUnbindOk), FrameDecodeErr>)
        ensures
            agrees(buf@, r, parse_args(ExchangeUnbindOk::layout(), buf@)),
    {
        assert(buf@ =~= buf@.skip(0));
        Ok((buf, ExchangeUnbindOk))
    }
}

/// Arguments of `Queue.Declare`.
#[derive(Debug)]
pub struct QueueDeclare {
    pub ticket: u16,
    pub queue_name: ShortStr,
    pub passive: bool,
    pub durable: bool,
    pub exclusive: bool,
    pub auto_delete: bool,
    pub no_wait: bool,
    pub args: FieldTable,
}

impl View for QueueDeclare {
    type V = Seq<ArgModel>;

    open spec fn view(&self) -> Seq<ArgModel> {
        seq![ArgModel::Short(self.ticket)] + (seq![ArgModel::ShortStr(self.queue_name@)] + (seq![ArgModel::Bits(seq![self.passive] + (seq![self.durable] + (seq![self.exclusive] + (seq![self.auto_delete] + (seq![self.no_wait] + Seq::<bool>::empty())))))] + (seq![ArgModel::Table(self.args@)] + Seq::<ArgModel>::empty())))
    }
}

impl QueueDeclare {
    /// The wire types of the fields, in order.
    pub open spec fn layout() -> Seq<ArgKind> {
        seq![ArgKind::Short] + (seq![ArgKind::ShortStr] + (seq![ArgKind::Bits(5)] + (seq![ArgKind::Table] + Seq::<ArgKind>::empty())))
    }

    /// Every field table in the arguments has a body within a `u32` length.
    pub open spec fn encodable(&self) -> bool {
        value_fits(FieldValueModel::FieldTable(self.args@))
    }

    pub fn encode(&self, out: &mut Vec<u8>)
        requires
            self.encodable(),
        ensures
            final(out)@ == old(out)@ + enc_args(self@),
    {
        proof {
            reveal_with_fuel(enc_args, 5);
            reveal_with_fuel(pack_bits, 6);
        }
        put_u16(out, self.ticket);
        self.queue_name.encode(out);
        put_u8(out, bit(self.passive) + 2 * (bit(self.durable) + 2 * (bit(self.exclusive) + 2 * (bit(self.auto_delete) + 2 * (bit(self.no_wait))))));
        self.args.encode(out);
        assert(out@ =~= old(out)@ + enc_args(self@));
    }

    #[verifier::spinoff_prover]
    #[verifier::rlimit(100)]
    pub fn decode(buf: &[u8]) -> (r: Result<(&[u8], QueueDeclare), FrameDecodeErr>)
        ensures
            agrees(buf@, r, parse_args(QueueDeclare::layout(), buf@)),
    {
        let ghost lay = QueueDeclare::layout();
        let ghost c0: nat = 0;
        let ghost d0 = Seq::<ArgModel>::empty();
        proof {
            lemma_prepend_start(parse_args(lay, buf@));
            assert(lay.skip(0) =~= lay);
            assert(buf@.skip(0) =~= buf@);
        }
        let r0 = buf;
        proof {
            assert(lay.skip(0)[0] == ArgKind::Short);
            assert(parse_args(lay, buf@) == prepend(parse_args(lay.skip(0), r0@), c0, d0));
            assert(r0@ == buf@.skip(c0 as int));
        }
        let (r1, ticket) = match decode_u16(r0) {
            Ok(v) => v,
            Err(e) => {
                proof {
                    lemma_args_step(lay.skip(0), r0@, c0, d0);
                }
                return Err(e);
            },
        };
        let ghost c1 = (c0 + (r0@.len() - r1@.len())) as nat;
        let ghost d1 = d0.push(ArgModel::Short(ticket));
        proof {
            lemma_args_step(lay.skip(0), r0@, c0, d0);
            lemma_skip_skip(buf@, c0 as int, r0@.len() - r1@.len());
            assert(lay.skip(0).skip(1) =~= lay.skip(1));
        }
        proof {
            assert(lay.skip(1)[0] == ArgKind::ShortStr);
            assert(parse_args(lay, buf@) == prepend(parse_args(lay.skip(1), r1@), c1, d1));
            assert(r1@ == buf@.skip(c1 as int));
        }
        let (r2, queue_name) = match ShortStr::decode(r1) {
            Ok(v) => v,
            Err(e) => {
                proof {
                    lemma_args_step(lay.skip(1), r1@, c1, d1);
                }
                return Err(e);
            },
        };
        let ghost c2 = (c1 + (r1@.len() - r2@.len())) as nat;
        let ghost d2 = d1.push(ArgModel::ShortStr(queue_name@));
        proof {
            lemma_args_step(lay.skip(1), r1@, c1, d1);
            lemma_skip_skip(buf@, c1 as int, r1@.len() - r2@.len());
            assert(lay.skip(1).skip(1) =~= lay.skip(2));
        }
        proof {
            assert(lay.skip(2)[0] == ArgKind::Bits(5));
            assert(parse_args(lay, buf@) == prepend(parse_args(lay.skip(2), r2@), c2, d2));
            assert(r2@ == buf@.skip(c2 as int));
        }
        let (r3, bits) = match decode_u8(r2) {
            Ok(v) => v,
            Err(e) => {
                proof {
                    lemma_args_step(lay.skip(2), r2@, c2, d2);
                }
                return Err(e);
            },
        };
        let ghost c3 = (c2 + (r2@.len() - r3@.len())) as nat;
        let ghost d3 = d2.push(ArgModel::Bits(unpack_bits(bits as int, 5)));
        proof {
            lemma_args_step(lay.skip(2), r2@, c2, d2);
            lemma_skip_skip(buf@, c2 as int, r2@.len() - r3@.len());
            assert(lay.skip(2).skip(1) =~= lay.skip(3));
        }
        let passive = bits % 2 == 1;
        let bits_1 = bits / 2;
        let durable = bits_1 % 2 == 1;
        let bits_2 = bits_1 / 2;
        let exclusive = bits_2 % 2 == 1;
        let bits_3 = bits_2 / 2;
        let auto_delete = bits_3 % 2 == 1;
        let bits_4 = bits_3 / 2;
        let no_wait = bits_4 % 2 == 1;
        proof {
            assert(lay.skip(3)[0] == ArgKind::Table);
            assert(parse_args(lay, buf@) == prepend(parse_args(lay.skip(3), r3@), c3, d3));
            assert(r3@ == buf@.skip(c3 as int));
        }
        let (r4, args) = match FieldTable::decode(r3) {
            Ok(v) => v,
            Err(e) => {
                proof {
                    lemma_args_step(lay.skip(3), r3@, c3, d3);
                }
                return Err(e);
            },
        };
        let ghost c4 = (c3 + (r3@.len() - r4@.len())) as nat;
        let ghost d4 = d3.push(ArgModel::Table(args@));
        proof {
            lemma_args_step(lay.skip(3), r3@, c3, d3);
            lemma_skip_skip(buf@, c3 as int, r3@.len() - r4@.len());
            assert(lay.skip(3).skip(1) =~= lay.skip(4));
        }
        let r = QueueDeclare { ticket, queue_name, passive, durable, exclusive, auto_delete, no_wait, args };
        proof {
            reveal_with_fuel(unpack_bits, 6);
            assert(lay.skip(4) =~= Seq::<ArgKind>::empty());
            assert(r@ =~= d4);
        }
        Ok((r4, r))
    }
}

/// Arguments of `Queue.DeclareOk`.
#[derive(Debug)]
pub struct QueueDeclareOk {
    pub queue_name: ShortStr,
    pub message_count: u32,
    pub consumer_count: u32,
}

impl View for QueueDeclareOk {
    type V = Seq<ArgModel>;

    open spec fn view(&self) -> Seq<ArgModel> {
        seq![ArgModel::ShortStr(self.queue_name@)] + (seq![ArgModel::Long(self.message_count)] + (seq![ArgModel::Long(self.consumer_count)] + Seq::<ArgModel>::empty()))
    }
}

impl QueueDeclareOk {
    /// The wire types of the fields, in order.
    pub open spec fn layout() -> Seq<ArgKind> {
        seq![ArgKind::ShortStr] + (seq![ArgKind::Long] + (seq![ArgKind::Long] + Seq::<ArgKind>::empty()))
    }

    /// Every field table in the arguments has a body within a `u32` length.
    pub open spec fn encodable(&self) -> bool {
        true
    }

    pub fn encode(&self, out: &mut Vec<u8>)
        requires
            self.encodable(),
        ensures
            final(out)@ == old(out)@ + enc_args(self@),
    {
        proof {
            reveal_with_fuel(enc_args, 4);
        }
        self.queue_name.encode(out);
        put_u32(out, self.message_count);
        put_u32(out, self.consumer_count);
        assert(out@ =~= old(out)@ + enc_args(self@));
    }

    #[verifier::spinoff_prover]
    #[verifier::rlimit(100)]
    pub fn decode(buf: &[u8]) -> (r: Result<(&[u8], QueueDeclareOk), FrameDecodeErr>)
        ensures
            agrees(buf@, r, parse_args(QueueDeclareOk::layout(), buf@)),
    {
        let ghost lay = QueueDeclareOk::layout();
        let ghost c0: nat = 0;
        let ghost d0 = Seq::<ArgModel>::empty();
        proof {
            lemma_prepend_start(parse_args(lay, buf@));
            assert(lay.skip(0) =~= lay);
            assert(buf@.skip(0) =~= buf@);
        }
        let r0 = buf;
        proof {
            assert(lay.skip(0)[0] == ArgKind::ShortStr);
            assert(parse_args(lay, buf@) == prepend(parse_args(lay.skip(0), r0@), c0, d0));
            assert(r0@ == buf@.skip(c0 as int));
        }
        let (r1, queue_name) = match ShortStr::decode(r0) {
            Ok(v) => v,
            Err(e) => {
                proof {
                    lemma_args_step(lay.skip(0), r0@, c0, d0);
                }
                return Err(e);
            },
        };
        let ghost c1 = (c0 + (r0@.len() - r1@.len())) as nat;
        let ghost d1 = d0.push(ArgModel::ShortStr(queue_name@));
        proof {
            lemma_args_step(lay.skip(0), r0@, c0, d0);
            lemma_skip_skip(buf@, c0 as int, r0@.len() - r1@.len());
            assert(lay.skip(0).skip(1) =~= lay.skip(1));
        }
        proof {
            assert(lay.skip(1)[0] == ArgKind::Long);
            assert(parse_args(lay, buf@) == prepend(parse_args(lay.skip(1), r1@), c1, d1));
            assert(r1@ == buf@.skip(c1 as int));
        }
        let (r2, message_count) = match decode_u32(r1) {
            Ok(v) => v,
            Err(e) => {
                proof {
                    lemma_args_step(lay.skip(1), r1@, c1, d1);
                }
                return Err(e);
            },
        };
        let ghost c2 = (c1 + (r1@.len() - r2@.len())) as nat;
        let ghost d2 = d1.push(ArgModel::Long(message_count));
        proof {
            lemma_args_step(lay.skip(1), r1@, c1, d1);
            lemma_skip_skip(buf@, c1 as int, r1@.len() - r2@.len());
            assert(lay.skip(1).skip(1) =~= lay.skip(2));
        }
        proof {
            assert(lay.skip(2)[0] == ArgKind::Long);
            assert(parse_args(lay, buf@) == prepend(parse_args(lay.skip(2), r2@), c2, d2));
            assert(r2@ == buf@.skip(c2 as int));
        }
        let (r3, consumer_count) = match decode_u32(r2) {
            Ok(v) => v,
            Err(e) => {
                proof {
                    lemma_args_step(lay.skip(2), r2@, c2, d2);
                }
                return Err(e);
            },
        };
        let ghost c3 = (c2 + (r2@.len() - r3@.len())) as nat;
        let ghost d3 = d2.push(ArgModel::Long(consumer_count));
        proof {
            lemma_args_step(lay.skip(2), r2@, c2, d2);
            lemma_skip_skip(buf@, c2 as int, r2@.len() - r3@.len());
            assert(lay.skip(2).skip(1) =~= lay.skip(3));
        }
        let r = QueueDeclareOk { queue_name, message_count, consumer_count };
        proof {
            assert(lay.skip(3) =~= Seq::<ArgKind>::empty());
            assert(r@ =~= d3);
        }
        Ok((r3, r))
    }
}

/// Arguments of `Queue.Bind`.
#[derive(Debug)]
pub struct QueueBind {
    pub ticket: u16,
    pub queue_name: ShortStr,
    pub exchange_name: ShortStr,
    pub routing_key: ShortStr,
    pub no_wait: bool,
    pub args: FieldTable,
}

impl View for QueueBind {
    type V = Seq<ArgModel>;

    open spec fn view(&self) -> Seq<ArgModel> {
        seq![ArgModel::Short(self.ticket)] + (seq![ArgModel::ShortStr(self.queue_name@)] + (seq![ArgModel::ShortStr(self.exchange_name@)] + (seq![ArgModel::ShortStr(self.routing_key@)] + (seq![ArgModel::Bits(seq![self.no_wait] + Seq::<bool>::empty())] + (seq![ArgModel::Table(self.args@)] + Seq::<ArgModel>::empty())))))
    }
}

impl QueueBind {
    /// The wire types of the fields, in order.
    pub open spec fn layout() -> Seq<ArgKind> {
        seq![ArgKind::Short] + (seq![ArgKind::ShortStr] + (seq![ArgKind::ShortStr] + (seq![ArgKind::ShortStr] + (seq![ArgKind::Bits(1)] + (seq![ArgKind::Table] + Seq::<ArgKind>::empty())))))
    }

    /// Every field table in the arguments has a body within a `u32` length.
    pub open spec fn encodable(&self) -> bool {
        value_fits(FieldValueModel::FieldTable(self.args@))
    }

    pub fn encode(&self, out: &mut Vec<u8>)
        requires
            self.encodable(),
        ensures
            final(out)@ == old(out)@ + enc_args(self@),
    {
        proof {
            reveal_with_fuel(enc_args, 7);
            reveal_with_fuel(pack_bits, 2);
        }
        put_u16(out, self.ticket);
        self.queue_name.encode(out);
        self.exchange_name.encode(out);
        self.routing_key.encode(out);
        put_u8(out, bit(self.no_wait));
        self.args.encode(out);
        assert(out@ =~= old(out)@ + enc_args(self@));
    }

    #[verifier::spinoff_prover]
    #[verifier::rlimit(100)]
    pub fn decode(buf: &[u8]) -> (r: Result<(&[u8], QueueBind), FrameDecodeErr>)
        ensures
            agrees(buf@, r, parse_args(QueueBind::layout(), buf@)),
    {
        let ghost lay = QueueBind::layout();
        let ghost c0: nat = 0;
        let ghost d0 = Seq::<ArgModel>::empty();
        proof {
            lemma_prepend_start(parse_args(lay, buf@));
            assert(lay.skip(0) =~= lay);
            assert(buf@.skip(0) =~= buf@);
        }
        let r0 = buf;
        proof {
            assert(lay.skip(0)[0] == ArgKind::Short);
            assert(parse_args(lay, buf@) == prepend(parse_args(lay.skip(0), r0@), c0, d0));
            assert(r0@ == buf@.skip(c0 as int));
        }
        let (r1, ticket) = match decode_u16(r0) {
            Ok(v) => v,
            Err(e) => {
                proof {
                    lemma_args_step(lay.skip(0), r0@, c0, d0);
                }
                return Err(e);
            },
        };
        let ghost c1 = (c0 + (r0@.len() - r1@.len())) as nat;
        let ghost d1 = d0.push(ArgModel::Short(ticket));
        proof {
            lemma_args_step(lay.skip(0), r0@, c0, d0);
            lemma_skip_skip(buf@, c0 as int, r0@.len() - r1@.len());
            assert(lay.skip(0).skip(1) =~= lay.skip(1));
        }
        proof {
            assert(lay.skip(1)[0] == ArgKind::ShortStr);
            assert(parse_args(lay, buf@) == prepend(parse_args(lay.skip(1), r1@), c1, d1));
            assert(r1@ == buf@.skip(c1 as int));
        }
        let (r2, queue_name) = match ShortStr::decode(r1) {
            Ok(v) => v,
            Err(e) => {
                proof {
                    lemma_args_step(lay.skip(1), r1@, c1, d1);
                }
                return Err(e);
            },
        };
        let ghost c2 = (c1 + (r1@.len() - r2@.len())) as nat;
        let ghost d2 = d1.push(ArgModel::ShortStr(queue_name@));
        proof {
            lemma_args_step(lay.skip(1), r1@, c1, d1);
            lemma_skip_skip(buf@, c1 as int, r1@.len() - r2@.len());
            assert(lay.skip(1).skip(1) =~= lay.skip(2));
        }
        proof {
            assert(lay.skip(2)[0] == ArgKind::ShortStr);
            assert(parse_args(lay, buf@) == prepend(parse_args(lay.skip(2), r2@), c2, d2));
            assert(r2@ == buf@.skip(c2 as int));
        }
        let (r3, exchange_name) = match ShortStr::decode(r2) {
            Ok(v) => v,
            Err(e) => {
                proof {
                    lemma_args_step(lay.skip(2), r2@, c2, d2);
                }
                return Err(e);
            },
        };
        let ghost c3 = (c2 + (r2@.len() - r3@.len())) as nat;
        let ghost d3 = d2.push(ArgModel::ShortStr(exchange_name@));
        proof {
            lemma_args_step(lay.skip(2), r2@, c2, d2);
            lemma_skip_skip(buf@, c2 as int, r2@.len() - r3@.len());
            assert(lay.skip(2).skip(1) =~= lay.skip(3));
        }
        proof {
            assert(lay.skip(3)[0] == ArgKind::ShortStr);
            assert(parse_args(lay, buf@) == prepend(parse_args(lay.skip(3), r3@), c3, d3));
            assert(r3@ == buf@.skip(c3 as int));
        }
        let (r4, routing_key) = match ShortStr::decode(r3) {
            Ok(v) => v,
            Err(e) => {
                proof {
                    lemma_args_step(lay.skip(3), r3@, c3, d3);
                }
                return Err(e);
            },
        };
        let ghost c4 = (c3 + (r3@.len() - r4@.len())) as nat;
        let ghost d4 = d3.push(ArgModel::ShortStr(routing_key@));
        proof {
            lemma_args_step(lay.skip(3), r3@, c3, d3);
            lemma_skip_skip(buf@, c3 as int, r3@.len() - r4@.len());
            assert(lay.skip(3).skip(1) =~= lay.skip(4));
        }
        proof {
            assert(lay.skip(4)[0] == ArgKind::Bits(1));
            assert(parse_args(lay, buf@) == prepend(parse_args(lay.skip(4), r4@), c4, d4));
            assert(r4@ == buf@.skip(c4 as int));
        }
        let (r5, bits) = match decode_u8(r4) {
            Ok(v) => v,
            Err(e) => {
                proof {
                    lemma_args_step(lay.skip(4), r4@, c4, d4);
                }
                return Err(e);
            },
        };
        let ghost c5 = (c4 + (r4@.len() - r5@.len())) as nat;
        let ghost d5 = d4.push(ArgModel::Bits(unpack_bits(bits as int, 1)));
        proof {
            lemma_args_step(lay.skip(4), r4@, c4, d4);
            lemma_skip_skip(buf@, c4 as int, r4@.len() - r5@.len());
            assert(lay.skip(4).skip(1) =~= lay.skip(5));
        }
        let no_wait = bits % 2 == 1;
        proof {
            assert(lay.skip(5)[0] == ArgKind::Table);
            assert(parse_args(lay, buf@) == prepend(parse_args(lay.skip(5), r5@), c5, d5));
            assert(r5@ == buf@.skip(c5 as int));
        }
        let (r6, args) = match FieldTable::decode(r5) {
            Ok(v) => v,
            Err(e) => {
                proof {
                    lemma_args_step(lay.skip(5), r5@, c5, d5);
                }
                return Err(e);
            },
        };
        let ghost c6 = (c5 + (r5@.len() - r6@.len())) as nat;
        let ghost d6 = d5.push(ArgModel::Table(args@));
        proof {
            lemma_args_step(lay.skip(5), r5@, c5, d5);
            lemma_skip_skip(buf@, c5 as int, r5@.len() - r6@.len());
            assert(lay.skip(5).skip(1) =~= lay.skip(6));
        }
        let r = QueueBind { ticket, queue_name, exchange_name, routing_key, no_wait, args };
        proof {
            reveal_with_fuel(unpack_bits, 2);
            assert(lay.skip(6) =~= Seq::<ArgKind>::empty());
            assert(r@ =~= d6);
        }
        Ok((r6, r))
    }
}

/// Arguments of `Queue.BindOk`.
#[derive(Debug)]
pub struct QueueBindOk;

impl View for QueueBindOk {
    type V = Seq<ArgModel>;

    open spec fn view(&self) -> Seq<ArgModel> {
        Seq::<ArgModel>::empty()
    }
}

impl QueueBindOk {
    /// The wire types of the fields, in order.
    pub open spec fn layout() -> Seq<ArgKind> {
        Seq::<ArgKind>::empty()
    }

    /// Every field table in the arguments has a body within a `u32` length.
    pub open spec fn encodable(&self) -> bool {
        true
    }

    pub fn encode(&self, out: &mut Vec<u8>)
        requires
            self.encodable(),
        ensures
            final(out)@ == old(out)@ + enc_args(self@),
    {
        assert(out@ =~= old(out)@ + enc_args(self@));
    }

    pub fn decode(buf: &[u8]) -> (r: Result<(&[u8], QueueBindOk), FrameDecodeErr>)
        ensures
            agrees(buf@, r, parse_args(QueueBindOk::layout(), buf@)),
    {
        assert(buf@ =~= buf@.skip(0));
        Ok((buf, QueueBindOk))
    }
}

/// Arguments of `Queue.Purge`.
#[derive(Debug)]
pub struct QueuePurge {
    pub ticket: u16,
    pub queue_name: ShortStr,
    pub no_wait: bool,
}

impl View for QueuePurge {
    type V = Seq<ArgModel>;

    open spec fn view(&self) -> Seq<ArgModel> {
        seq![ArgModel::Short(self.ticket)] + (seq![ArgModel::ShortStr(self.queue_name@)] + (seq![ArgModel::Bits(seq![self.no_wait] + Seq::<bool>::empty())] + Seq::<ArgModel>::empty()))
    }
}

impl QueuePurge {
    /// The wire types of the fields, in order.
    pub open spec fn layout() -> Seq<ArgKind> {
        seq![ArgKind::Short] + (seq![ArgKind::ShortStr] + (seq![ArgKind::Bits(1)] + Seq::<ArgKind>::empty()))
    }

    /// Every field table in the arguments has a body within a `u32` length.
    pub open spec fn encodable(&self) -> bool {
        true
    }

    pub fn encode(&self, out: &mut Vec<u8>)
        requires
            self.encodable(),
        ensures
            final(out)@ == old(out)@ + enc_args(self@),
    {
        proof {
            reveal_with_fuel(enc_args, 4);
            reveal_with_fuel(pack_bits, 2);
        }
        put_u16(out, self.ticket);
        self.queue_name.encode(out);
        put_u8(out, bit(self.no_wait));
        assert(out@ =~= old(out)@ + enc_args(self@));
    }

    #[verifier::spinoff_prover]
    #[verifier::rlimit(100)]
    pub fn decode(buf: &[u8]) -> (r: Result<(&[u8], QueuePurge), FrameDecodeErr>)
        ensures
            agrees(buf@, r, parse_args(QueuePurge::layout(), buf@)),
    {
        let ghost lay = QueuePurge::layout();
        let ghost c0: nat = 0;
        let ghost d0 = Seq::<ArgModel>::empty();
        proof {
            lemma_prepend_start(parse_args(lay, buf@));
            assert(lay.skip(0) =~= lay);
            assert(buf@.skip(0) =~= buf@);
        }
        let r0 = buf;
        proof {
            assert(lay.skip(0)[0] == ArgKind::Short);
            assert(parse_args(lay, buf@) == prepend(parse_args(lay.skip(0), r0@), c0, d0));
            assert(r0@ == buf@.skip(c0 as int));
        }
        let (r1, ticket) = match decode_u16(r0) {
            Ok(v) => v,
            Err(e) => {
                proof {
                    lemma_args_step(lay.skip(0), r0@, c0, d0);
                }
                return Err(e);
            },
        };
        let ghost c1 = (c0 + (r0@.len() - r1@.len())) as nat;
        let ghost d1 = d0.push(ArgModel::Short(ticket));
        proof {
            lemma_args_step(lay.skip(0), r0@, c0, d0);
            lemma_skip_skip(buf@, c0 as int, r0@.len() - r1@.len());
            assert(lay.skip(0).skip(1) =~= lay.skip(1));
        }
        proof {
            assert(lay.skip(1)[0] == ArgKind::ShortStr);
            assert(parse_args(lay, buf@) == prepend(parse_args(lay.skip(1), r1@), c1, d1));
            assert(r1@ == buf@.skip(c1 as int));
        }
        let (r2, queue_name) = match ShortStr::decode(r1) {
            Ok(v) => v,
            Err(e) => {
                proof {
                    lemma_args_step(lay.skip(1), r1@, c1, d1);
                }
                return Err(e);
            },
        };
        let ghost c2 = (c1 + (r1@.len() - r2@.len())) as nat;
        let ghost d2 = d1.push(ArgModel::ShortStr(queue_name@));
        proof {
            lemma_args_step(lay.skip(1), r1@, c1, d1);
            lemma_skip_skip(buf@, c1 as int, r1@.len() - r2@.len());
            assert(lay.skip(1).skip(1) =~= lay.skip(2));
        }
        proof {
            assert(lay.skip(2)[0] == ArgKind::Bits(1));
            assert(parse_args(lay, buf@) == prepend(parse_args(lay.skip(2), r2@), c2, d2));
            assert(r2@ == buf@.skip(c2 as int));
        }
        let (r3, bits) = match decode_u8(r2) {
            Ok(v) => v,
            Err(e) => {
                proof {
                    lemma_args_step(lay.skip(2), r2@, c2, d2);
                }
                return Err(e);
            },
        };
        let ghost c3 = (c2 + (r2@.len() - r3@.len())) as nat;
        let ghost d3 = d2.push(ArgModel::Bits(unpack_bits(bits as int, 1)));
        proof {
            lemma_args_step(lay.skip(2), r2@, c2, d2);
            lemma_skip_skip(buf@, c2 as int, r2@.len() - r3@.len());
            assert(lay.skip(2).skip(1) =~= lay.skip(3));
        }
        let no_wait = bits % 2 == 1;
        let r = QueuePurge { ticket, queue_name, no_wait };
        proof {
            reveal_with_fuel(unpack_bits, 2);
            assert(lay.skip(3) =~= Seq::<ArgKind>::empty());
            assert(r@ =~= d3);
        }
        Ok((r3, r))
    }
}

/// Arguments of `Queue.PurgeOk`.
#[derive(Debug)]
pub struct QueuePurgeOk {
    pub message_count: u32,
}

impl View for QueuePurgeOk {
    type V = Seq<ArgModel>;

    open spec fn view(&self) -> Seq<ArgModel> {
        seq![ArgModel::Long(self.message_count)] + Seq::<ArgModel>::empty()
    }
}

impl QueuePurgeOk {
    /// The wire types of the fields, in order.
    pub open spec fn layout() -> Seq<ArgKind> {
        seq![ArgKind::Long] + Seq::<ArgKind>::empty()
    }

    /// Every field table in the arguments has a body within a `u32` length.
    pub open spec fn encodable(&self) -> bool {
        true
    }

    pub fn encode(&self, out: &mut Vec<u8>)
        requires
            self.encodable(),
        ensures
            final(out)@ == old(out)@ + enc_args(self@),
    {
        proof {
            reveal_with_fuel(enc_args, 2);
        }
        put_u32(out, self.message_count);
        assert(out@ =~= old(out)@ + enc_args(self@));
    }

    #[verifier::spinoff_prover]
    #[verifier::rlimit(100)]
    pub fn decode(buf: &[u8]) -> (r: Result<(&[u8], QueuePurgeOk), FrameDecodeErr>)
        ensures
            agrees(buf@, r, parse_args(QueuePurgeOk::layout(), buf@)),
    {
        let ghost lay = QueuePurgeOk::layout();
        let ghost c0: nat = 0;
        let ghost d0 = Seq::<ArgModel>::empty();
        proof {
            lemma_prepend_start(parse_args(lay, buf@));
            assert(lay.skip(0) =~= lay);
            assert(buf@.skip(0) =~= buf@);
        }
        let r0 = buf;
        proof {
            assert(lay.skip(0)[0] == ArgKind::Long);
            assert(parse_args(lay, buf@) == prepend(parse_args(lay.skip(0), r0@), c0, d0));
            assert(r0@ == buf@.skip(c0 as int));
        }
        let (r1, message_count) = match decode_u32(r0) {
            Ok(v) => v,
            Err(e) => {
                proof {
                    lemma_args_step(lay.skip(0), r0@, c0, d0);
                }
                return Err(e);
            },
        };
        let ghost c1 = (c0 + (r0@.len() - r1@.len())) as nat;
        let ghost d1 = d0.push(ArgModel::Long(message_count));
        proof {
            lemma_args_step(lay.skip(0), r0@, c0, d0);
            lemma_skip_skip(buf@, c0 as int, r0@.len() - r1@.len());
            assert(lay.skip(0).skip(1) =~= lay.skip(1));
        }
        let r = QueuePurgeOk { message_count };
        proof {
            assert(lay.skip(1) =~= Seq::<ArgKind>::empty());
            assert(r@ =~= d1);
        }
        Ok((r1, r))
    }
}

/// Arguments of `Queue.Delete`.
#[derive(Debug)]
pub struct QueueDelete {
    pub ticket: u16,
    pub queue_name: ShortStr,
    pub if_unused: bool,
    pub if_empty: bool,
    pub no_wait: bool,
}

impl View for QueueDelete {
    type V = Seq<ArgModel>;

    open spec fn view(&self) -> Seq<ArgModel> {
        seq![ArgModel::Short(self.ticket)] + (seq![ArgModel::ShortStr(self.queue_name@)] + (seq![ArgModel::Bits(seq![self.if_unused] + (seq![self.if_empty] + (seq![self.no_wait] + Seq::<bool>::empty())))] + Seq::<ArgModel>::empty()))
    }
}

impl QueueDelete {
    /// The wire types of the fields, in order.
    pub open spec fn layout() -> Seq<ArgKind> {
        seq![ArgKind::Short] + (seq![ArgKind::ShortStr] + (seq![ArgKind::Bits(3)] + Seq::<ArgKind>::empty()))
    }

    /// Every field table in the arguments has a body within a `u32` length.
    pub open spec fn encodable(&self) -> bool {
        true
    }

    pub fn encode(&self, out: &mut Vec<u8>)
        requires
            self.encodable(),
        ensures
            final(out)@ == old(out)@ + enc_args(self@),
    {
        proof {
            reveal_with_fuel(enc_args, 4);
            reveal_with_fuel(pack_bits, 4);
        }
        put_u16(out, self.ticket);
        self.queue_name.encode(out);
        put_u8(out, bit(self.if_unused) + 2 * (bit(self.if_empty) + 2 * (bit(self.no_wait))));
        assert(out@ =~= old(out)@ + enc_args(self@));
    }

    #[verifier::spinoff_prover]
    #[verifier::rlimit(100)]
    pub fn decode(buf: &[u8]) -> (r: Result<(&[u8], QueueDelete), FrameDecodeErr>)
        ensures
            agrees(buf@, r, parse_args(QueueDelete::layout(), buf@)),
    {
        let ghost lay = QueueDelete::layout();
        let ghost c0: nat = 0;
        let ghost d0 = Seq::<ArgModel>::empty();
        proof {
            lemma_prepend_start(parse_args(lay, buf@));
            assert(lay.skip(0) =~= lay);
            assert(buf@.skip(0) =~= buf@);
        }
        let r0 = buf;
        proof {
            assert(lay.skip(0)[0] == ArgKind::Short);
            assert(parse_args(lay, buf@) == prepend(parse_args(lay.skip(0), r0@), c0, d0));
            assert(r0@ == buf@.skip(c0 as int));
        }
        let (r1, ticket) = match decode_u16(r0) {
            Ok(v) => v,
            Err(e) => {
                proof {
                    lemma_args_step(lay.skip(0), r0@, c0, d0);
                }
                return Err(e);
            },
        };
        let ghost c1 = (c0 + (r0@.len() - r1@.len())) as nat;
        let ghost d1 = d0.push(ArgModel::Short(ticket));
        proof {
            lemma_args_step(lay.skip(0), r0@, c0, d0);
            lemma_skip_skip(buf@, c0 as int, r0@.len() - r1@.len());
            assert(lay.skip(0).skip(1) =~= lay.skip(1));
        }
        proof {
            assert(lay.skip(1)[0] == ArgKind::ShortStr);
            assert(parse_args(lay, buf@) == prepend(parse_args(lay.skip(1), r1@), c1, d1));
            assert(r1@ == buf@.skip(c1 as int));
        }
        let (r2, queue_name) = match ShortStr::decode(r1) {
            Ok(v) => v,
            Err(e) => {
                proof {
                    lemma_args_step(lay.skip(1), r1@, c1, d1);
                }
                return Err(e);
            },
        };
        let ghost c2 = (c1 + (r1@.len() - r2@.len())) as nat;
        let ghost d2 = d1.push(ArgModel::ShortStr(queue_name@));
        proof {
            lemma_args_step(lay.skip(1), r1@, c1, d1);
            lemma_skip_skip(buf@, c1 as int, r1@.len() - r2@.len());
            assert(lay.skip(1).skip(1) =~= lay.skip(2));
        }
        proof {
            assert(lay.skip(2)[0] == ArgKind::Bits(3));
            assert(parse_args(lay, buf@) == prepend(parse_args(lay.skip(2), r2@), c2, d2));
            assert(r2@ == buf@.skip(c2 as int));
        }
        let (r3, bits) = match decode_u8(r2) {
            Ok(v) => v,
            Err(e) => {
                proof {
                    lemma_args_step(lay.skip(2), r2@, c2, d2);
                }
                return Err(e);
            },
        };
        let ghost c3 = (c2 + (r2@.len() - r3@.len())) as nat;
        let ghost d3 = d2.push(ArgModel::Bits(unpack_bits(bits as int, 3)));
        proof {
            lemma_args_step(lay.skip(2), r2@, c2, d2);
            lemma_skip_skip(buf@, c2 as int, r2@.len() - r3@.len());
            assert(lay.skip(2).skip(1) =~= lay.skip(3));
        }
        let if_unused = bits % 2 == 1;
        let bits_1 = bits / 2;
        let if_empty = bits_1 % 2 == 1;
        let bits_2 = bits_1 / 2;
        let no_wait = bits_2 % 2 == 1;
        let r = QueueDelete { ticket, queue_name, if_unused, if_empty, no_wait };
        proof {
            reveal_with_fuel(unpack_bits, 4);
            assert(lay.skip(3) =~= Seq::<ArgKind>::empty());
            assert(r@ =~= d3);
        }
        Ok((r3, r))
    }
}

/// Arguments of `Queue.DeleteOk`.
#[derive(Debug)]
pub struct QueueDeleteOk {
    pub message_count: u32,
}

impl View for QueueDeleteOk {
    type V = Seq<ArgModel>;

    open spec fn view(&self) -> Seq<ArgModel> {
        seq![ArgModel::Long(self.message_count)] + Seq::<ArgModel>::empty()
    }
}

impl QueueDeleteOk {
    /// The wire types of the fields, in order.
    pub open spec fn layout() -> Seq<ArgKind> {
        seq![ArgKind::Long] + Seq::<ArgKind>::empty()
    }

    /// Every field table in the arguments has a body within a `u32` length.
    pub open spec fn encodable(&self) -> bool {
        true
    }

    pub fn encode(&self, out: &mut Vec<u8>)
        requires
            self.encodable(),
        ensures
            final(out)@ == old(out)@ + enc_args(self@),
    {
        proof {
            reveal_with_fuel(enc_args, 2);
        }
        put_u32(out, self.message_count);
        assert(out@ =~= old(out)@ + enc_args(self@));
    }

    #[verifier::spinoff_prover]
    #[verifier::rlimit(100)]
    pub fn decode(buf: &[u8]) -> (r: Result<(&[u8], QueueDeleteOk), FrameDecodeErr>)
        ensures
            agrees(buf@, r, parse_args(QueueDeleteOk::layout(), buf@)),
    {
        let ghost lay = QueueDeleteOk::layout();
        let ghost c0: nat = 0;
        let ghost d0 = Seq::<ArgModel>::empty();
        proof {
            lemma_prepend_start(parse_args(lay, buf@));
            assert(lay.skip(0) =~= lay);
            assert(buf@.skip(0) =~= buf@);
        }
        let r0 = buf;
        proof {
            assert(lay.skip(0)[0] == ArgKind::Long);
            assert(parse_args(lay, buf@) == prepend(parse_args(lay.skip(0), r0@), c0, d0));
            assert(r0@ == buf@.skip(c0 as int));
        }
        let (r1, message_count) = match decode_u32(r0) {
            Ok(v) => v,
            Err(e) => {
                proof {
                    lemma_args_step(lay.skip(0), r0@, c0, d0);
                }
                return Err(e);
            },
        };
        let ghost c1 = (c0 + (r0@.len() - r1@.len())) as nat;
        let ghost d1 = d0.push(ArgModel::Long(message_count));
        proof {
            lemma_args_step(lay.skip(0), r0@, c0, d0);
            lemma_skip_skip(buf@, c0 as int, r0@.len() - r1@.len());
            assert(lay.skip(0).skip(1) =~= lay.skip(1));
        }
        let r = QueueDeleteOk { message_count };
        proof {
            assert(lay.skip(1) =~= Seq::<ArgKind>::empty());
            assert(r@ =~= d1);
        }
        Ok((r1, r))
    }
}

/// Arguments of `Queue.Unbind`.
#[derive(Debug)]
pub struct QueueUnbind {
    pub ticket: u16,
    pub queue_name: ShortStr,
    pub exchange_name: ShortStr,
    pub routing_key: ShortStr,
    pub args: FieldTable,
}

impl View for QueueUnbind {
    type V = Seq<ArgModel>;

    open spec fn view(&self) -> Seq<ArgModel> {
        seq![ArgModel::Short(self.ticket)] + (seq![ArgModel::ShortStr(self.queue_name@)] + (seq![ArgModel::ShortStr(self.exchange_name@)] + (seq![ArgModel::ShortStr(self.routing_key@)] + (seq![ArgModel::Table(self.args@)] + Seq::<ArgModel>::empty()))))
    }
}

impl QueueUnbind {
    /// The wire types of the fields, in order.
    pub open spec fn layout() -> Seq<ArgKind> {
        seq![ArgKind::Short] + (seq![ArgKind::ShortStr] + (seq![ArgKind::ShortStr] + (seq![ArgKind::ShortStr] + (seq![ArgKind::Table] + Seq::<ArgKind>::empty()))))
    }

    /// Every field table in the arguments has a body within a `u32` length.
    pub open spec fn encodable(&self) -> bool {
        value_fits(FieldValueModel::FieldTable(self.args@))
    }

    pub fn encode(&self, out: &mut Vec<u8>)
        requires
            self.encodable(),
        ensures
            final(out)@ == old(out)@ + enc_args(self@),
    {
        proof {
            reveal_with_fuel(enc_args, 6);
        }
        put_u16(out, self.ticket);
        self.queue_name.encode(out);
        self.exchange_name.encode(out);
        self.routing_key.encode(out);
        self.args.encode(out);
        assert(out@ =~= old(out)@ + enc_args(self@));
    }

    #[verifier::spinoff_prover]
    #[verifier::rlimit(100)]
    pub fn decode(buf: &[u8]) -> (r: Result<(&[u8], QueueUnbind), FrameDecodeErr>)
        ensures
            agrees(buf@, r, parse_args(QueueUnbind::layout(), buf@)),
    {
        let ghost lay = QueueUnbind::layout();
        let ghost c0: nat = 0;
        let ghost d0 = Seq::<ArgModel>::empty();
        proof {
            lemma_prepend_start(parse_args(lay, buf@));
            assert(lay.skip(0) =~= lay);
            assert(buf@.skip(0) =~= buf@);
        }
        let r0 = buf;
        proof {
            assert(lay.skip(0)[0] == ArgKind::Short);
            assert(parse_args(lay, buf@) == prepend(parse_args(lay.skip(0), r0@), c0, d0));
            assert(r0@ == buf@.skip(c0 as int));
        }
        let (r1, ticket) = match decode_u16(r0) {
            Ok(v) => v,
            Err(e) => {
                proof {
                    lemma_args_step(lay.skip(0), r0@, c0, d0);
                }
                return Err(e);
            },
        };
        let ghost c1 = (c0 + (r0@.len() - r1@.len())) as nat;
        let ghost d1 = d0.push(ArgModel::Short(ticket));
        proof {
            lemma_args_step(lay.skip(0), r0@, c0, d0);
            lemma_skip_skip(buf@, c0 as int, r0@.len() - r1@.len());
            assert(lay.skip(0).skip(1) =~= lay.skip(1));
        }
        proof {
            assert(lay.skip(1)[0] == ArgKind::ShortStr);
            assert(parse_args(lay, buf@) == prepend(parse_args(lay.skip(1), r1@), c1, d1));
            assert(r1@ == buf@.skip(c1 as int));
        }
        let (r2, queue_name) = match ShortStr::decode(r1) {
            Ok(v) => v,
            Err(e) => {
                proof {
                    lemma_args_step(lay.skip(1), r1@, c1, d1);
                }
                return Err(e);
            },
        };
        let ghost c2 = (c1 + (r1@.len() - r2@.len())) as nat;
        let ghost d2 = d1.push(ArgModel::ShortStr(queue_name@));
        proof {
            lemma_args_step(lay.skip(1), r1@, c1, d1);
            lemma_skip_skip(buf@, c1 as int, r1@.len() - r2@.len());
            assert(lay.skip(1).skip(1) =~= lay.skip(2));
        }
        proof {
            assert(lay.skip(2)[0] == ArgKind::ShortStr);
            assert(parse_args(lay, buf@) == prepend(parse_args(lay.skip(2), r2@), c2, d2));
            assert(r2@ == buf@.skip(c2 as int));
        }
        let (r3, exchange_name) = match ShortStr::decode(r2) {
            Ok(v) => v,
            Err(e) => {
                proof {
                    lemma_args_step(lay.skip(2), r2@, c2, d2);
                }
                return Err(e);
            },
        };
        let ghost c3 = (c2 + (r2@.len() - r3@.len())) as nat;
        let ghost d3 = d2.push(ArgModel::ShortStr(exchange_name@));
        proof {
            lemma_args_step(lay.skip(2), r2@, c2, d2);
            lemma_skip_skip(buf@, c2 as int, r2@.len() - r3@.len());
            assert(lay.skip(2).skip(1) =~= lay.skip(3));
        }
        proof {
            assert(lay.skip(3)[0] == ArgKind::ShortStr);
            assert(parse_args(lay, buf@) == prepend(parse_args(lay.skip(3), r3@), c3, d3));
            assert(r3@ == buf@.skip(c3 as int));
        }
        let (r4, routing_key) = match ShortStr::decode(r3) {
            Ok(v) => v,
            Err(e) => {
                proof {
                    lemma_args_step(lay.skip(3), r3@, c3, d3);
                }
                return Err(e);
            },
        };
        let ghost c4 = (c3 + (r3@.len() - r4@.len())) as nat;
        let ghost d4 = d3.push(ArgModel::ShortStr(routing_key@));
        proof {
            lemma_args_step(lay.skip(3), r3@, c3, d3);
            lemma_skip_skip(buf@, c3 as int, r3@.len() - r4@.len());
            assert(lay.skip(3).skip(1) =~= lay.skip(4));
        }
        proof {
            assert(lay.skip(4)[0] == ArgKind::Table);
            assert(parse_args(lay, buf@) == prepend(parse_args(lay.skip(4), r4@), c4, d4));
            assert(r4@ == buf@.skip(c4 as int));
        }
        let (r5, args) = match FieldTable::decode(r4) {
            Ok(v) => v,
            Err(e) => {
                proof {
                    lemma_args_step(lay.skip(4), r4@, c4, d4);
                }
                return Err(e);
            },
        };
        let ghost c5 = (c4 + (r4@.len() - r5@.len())) as nat;
        let ghost d5 = d4.push(ArgModel::Table(args@));
        proof {
            lemma_args_step(lay.skip(4), r4@, c4, d4);
            lemma_skip_skip(buf@, c4 as int, r4@.len() - r5@.len());
            assert(lay.skip(4).skip(1) =~= lay.skip(5));
        }
        let r = QueueUnbind { ticket, queue_name, exchange_name, routing_key, args };
        proof {
            assert(lay.skip(5) =~= Seq::<ArgKind>::empty());
            assert(r@ =~= d5);
        }
        Ok((r5, r))
    }
}

/// Arguments of `Queue.UnbindOk`.
#[derive(Debug)]
pub struct QueueUnbindOk;

impl View for QueueUnbindOk {
    type V = Seq<ArgModel>;

    open spec fn view(&self) -> Seq<ArgModel> {
        Seq::<ArgModel>::empty()
    }
}

impl QueueUnbindOk {
    /// The wire types of the fields, in order.
    pub open spec fn layout() -> Seq<ArgKind> {
        Seq::<ArgKind>::empty()
    }

    /// Every field table in the arguments has a body within a `u32` length.
    pub open spec fn encodable(&self) -> bool {
        true
    }

    pub fn encode(&self, out: &mut Vec<u8>)
        requires
            self.encodable(),
        ensures
            final(out)@ == old(out)@ + enc_args(self@),
    {
        assert(out@ =~= old(out)@ + enc_args(self@));
    }

    pub fn decode(buf: &[u8]) -> (r: Result<(&[u8], QueueUnbindOk), FrameDecodeErr>)
        ensures
            agrees(buf@, r, parse_args(QueueUnbindOk::layout(), buf@)),
    {
        assert(buf@ =~= buf@.skip(0));
        Ok((buf, QueueUnbindOk))
    }
}

/// Arguments of `Basic.Qos`.
#[derive(Debug)]
pub struct BasicQos {
    pub prefetch_size: u32,
    pub prefetch_count: u16,
    pub global: bool,
}

impl View for BasicQos {
    type V = Seq<ArgModel>;

    open spec fn view(&self) -> Seq<ArgModel> {
        seq![ArgModel::Long(self.prefetch_size)] + (seq![ArgModel::Short(self.prefetch_count)] + (seq![ArgModel::Bits(seq![self.global] + Seq::<bool>::empty())] + Seq::<ArgModel>::empty()))
    }
}

impl BasicQos {
    /// The wire types of the fields, in order.
    pub open spec fn layout() -> Seq<ArgKind> {
        seq![ArgKind::Long] + (seq![ArgKind::Short] + (seq![ArgKind::Bits(1)] + Seq::<ArgKind>::empty()))
    }

    /// Every field table in the arguments has a body within a `u32` length.
    pub open spec fn encodable(&self) -> bool {
        true
    }

    pub fn encode(&self, out: &mut Vec<u8>)
        requires
            self.encodable(),
        ensures
            final(out)@ == old(out)@ + enc_args(self@),
    {
        proof {
            reveal_with_fuel(enc_args, 4);
            reveal_with_fuel(pack_bits, 2);
        }
        put_u32(out, self.prefetch_size);
        put_u16(out, self.prefetch_count);
        put_u8(out, bit(self.global));
        assert(out@ =~= old(out)@ + enc_args(self@));
    }

    #[verifier::spinoff_prover]
    #[verifier::rlimit(100)]
    pub fn decode(buf: &[u8]) -> (r: Result<(&[u8], BasicQos), FrameDecodeErr>)
        ensures
            agrees(buf@, r, parse_args(BasicQos::layout(), buf@)),
    {
        let ghost lay = BasicQos::layout();
        let ghost c0: nat = 0;
        let ghost d0 = Seq::<ArgModel>::empty();
        proof {
            lemma_prepend_start(parse_args(lay, buf@));
            assert(lay.skip(0) =~= lay);
            assert(buf@.skip(0) =~= buf@);
        }
        let r0 = buf;
        proof {
            assert(lay.skip(0)[0] == ArgKind::Long);
            assert(parse_args(lay, buf@) == prepend(parse_args(lay.skip(0), r0@), c0, d0));
            assert(r0@ == buf@.skip(c0 as int));
        }
        let (r1, prefetch_size) = match decode_u32(r0) {
            Ok(v) => v,
            Err(e) => {
                proof {
                    lemma_args_step(lay.skip(0), r0@, c0, d0);
                }
                return Err(e);
            },
        };
        let ghost c1 = (c0 + (r0@.len() - r1@.len())) as nat;
        let ghost d1 = d0.push(ArgModel::Long(prefetch_size));
        proof {
            lemma_args_step(lay.skip(0), r0@, c0, d0);
            lemma_skip_skip(buf@, c0 as int, r0@.len() - r1@.len());
            assert(lay.skip(0).skip(1) =~= lay.skip(1));
        }
        proof {
            assert(lay.skip(1)[0] == ArgKind::Short);
            assert(parse_args(lay, buf@) == prepend(parse_args(lay.skip(1), r1@), c1, d1));
            assert(r1@ == buf@.skip(c1 as int));
        }
        let (r2, prefetch_count) = match decode_u16(r1) {
            Ok(v) => v,
            Err(e) => {
                proof {
                    lemma_args_step(lay.skip(1), r1@, c1, d1);
                }
                return Err(e);
            },
        };
        let ghost c2 = (c1 + (r1@.len() - r2@.len())) as nat;
        let ghost d2 = d1.push(ArgModel::Short(prefetch_count));
        proof {
            lemma_args_step(lay.skip(1), r1@, c1, d1);
            lemma_skip_skip(buf@, c1 as int, r1@.len() - r2@.len());
            assert(lay.skip(1).skip(1) =~= lay.skip(2));
        }
        proof {
            assert(lay.skip(2)[0] == ArgKind::Bits(1));
            assert(parse_args(lay, buf@) == prepend(parse_args(lay.skip(2), r2@), c2, d2));
            assert(r2@ == buf@.skip(c2 as int));
        }
        let (r3, bits) = match decode_u8(r2) {
            Ok(v) => v,
            Err(e) => {
                proof {
                    lemma_args_step(lay.skip(2), r2@, c2, d2);
                }
                return Err(e);
            },
        };
        let ghost c3 = (c2 + (r2@.len() - r3@.len())) as nat;
        let ghost d3 = d2.push(ArgModel::Bits(unpack_bits(bits as int, 1)));
        proof {
            lemma_args_step(lay.skip(2), r2@, c2, d2);
            lemma_skip_skip(buf@, c2 as int, r2@.len() - r3@.len());
            assert(lay.skip(2).skip(1) =~= lay.skip(3));
        }
        let global = bits % 2 == 1;
        let r = BasicQos { prefetch_size, prefetch_count, global };
        proof {
            reveal_with_fuel(unpack_bits, 2);
            assert(lay.skip(3) =~= Seq::<ArgKind>::empty());
            assert(r@ =~= d3);
        }
        Ok((r3, r))
    }
}

/// Arguments of `Basic.QosOk`.
#[derive(Debug)]
pub struct BasicQosOk;

impl View for BasicQosOk {
    type V = Seq<ArgModel>;

    open spec fn view(&self) -> Seq<ArgModel> {
        Seq::<ArgModel>::empty()
    }
}

impl BasicQosOk {
    /// The wire types of the fields, in order.
    pub open spec fn layout() -> Seq<ArgKind> {
        Seq::<ArgKind>::empty()
    }

    /// Every field table in the arguments has a body within a `u32` length.
    pub open spec fn encodable(&self) -> bool {
        true
    }

    pub fn encode(&self, out: &mut Vec<u8>)
        requires
            self.encodable(),
        ensures
            final(out)@ == old(out)@ + enc_args(self@),
    {
        assert(out@ =~= old(out)@ + enc_args(self@));
    }

    pub fn decode(buf: &[u8]) -> (r: Result<(&[u8], BasicQosOk), FrameDecodeErr>)
        ensures
            agrees(buf@, r, parse_args(BasicQosOk::layout(), buf@)),
    {
        assert(buf@ =~= buf@.skip(0));
        Ok((buf, BasicQosOk))
    }
}

/// Arguments of `Basic.Consume`.
#[derive(Debug)]
pub struct BasicConsume {
    pub ticket: u16,
    pub queue_name: ShortStr,
    pub consumer_tag: ShortStr,
    pub no_local: bool,
    pub no_ack: bool,
    pub exclusive: bool,
    pub no_wait: bool,
    pub args: FieldTable,
}

impl View for BasicConsume {
    type V = Seq<ArgModel>;

    open spec fn view(&self) -> Seq<ArgModel> {
        seq![ArgModel::Short(self.ticket)] + (seq![ArgModel::ShortStr(self.queue_name@)] + (seq![ArgModel::ShortStr(self.consumer_tag@)] + (seq![ArgModel::Bits(seq![self.no_local] + (seq![self.no_ack] + (seq![self.exclusive] + (seq![self.no_wait] + Seq::<bool>::empty()))))] + (seq![ArgModel::Table(self.args@)] + Seq::<ArgModel>::empty()))))
    }
}

impl BasicConsume {
    /// The wire types of the fields, in order.
    pub open spec fn layout() -> Seq<ArgKind> {
        seq![ArgKind::Short] + (seq![ArgKind::ShortStr] + (seq![ArgKind::ShortStr] + (seq![ArgKind::Bits(4)] + (seq![ArgKind::Table] + Seq::<ArgKind>::empty()))))
    }

    /// Every field table in the arguments has a body within a `u32` length.
    pub open spec fn encodable(&self) -> bool {
        value_fits(FieldValueModel::FieldTable(self.args@))
    }

    pub fn encode(&self, out: &mut Vec<u8>)
        requires
            self.encodable(),
        ensures
            final(out)@ == old(out)@ + enc_args(self@),
    {
        proof {
            reveal_with_fuel(enc_args, 6);
            reveal_with_fuel(pack_bits, 5);
        }
        put_u16(out, self.ticket);
        self.queue_name.encode(out);
        self.consumer_tag.encode(out);
        put_u8(out, bit(self.no_local) + 2 * (bit(self.no_ack) + 2 * (bit(self.exclusive) + 2 * (bit(self.no_wait)))));
        self.args.encode(out);
        assert(out@ =~= old(out)@ + enc_args(self@));
    }

    #[verifier::spinoff_prover]
    #[verifier::rlimit(100)]
    pub fn decode(buf: &[u8]) -> (r: Result<(&[u8], BasicConsume), FrameDecodeErr>)
        ensures
            agrees(buf@, r, parse_args(BasicConsume::layout(), buf@)),
    {
        let ghost lay = BasicConsume::layout();
        let ghost c0: nat = 0;
        let ghost d0 = Seq::<ArgModel>::empty();
        proof {
            lemma_prepend_start(parse_args(lay, buf@));
            assert(lay.skip(0) =~= lay);
            assert(buf@.skip(0) =~= buf@);
        }
        let r0 = buf;
        proof {
            assert(lay.skip(0)[0] == ArgKind::Short);
            assert(parse_args(lay, buf@) == prepend(parse_args(lay.skip(0), r0@), c0, d0));
            assert(r0@ == buf@.skip(c0 as int));
        }
        let (r1, ticket) = match decode_u16(r0) {
            Ok(v) => v,
            Err(e) => {
                proof {
                    lemma_args_step(lay.skip(0), r0@, c0, d0);
                }
                return Err(e);
            },
        };
        let ghost c1 = (c0 + (r0@.len() - r1@.len())) as nat;
        let ghost d1 = d0.push(ArgModel::Short(ticket));
        proof {
            lemma_args_step(lay.skip(0), r0@, c0, d0);
            lemma_skip_skip(buf@, c0 as int, r0@.len() - r1@.len());
            assert(lay.skip(0).skip(1) =~= lay.skip(1));
        }
        proof {
            assert(lay.skip(1)[0] == ArgKind::ShortStr);
            assert(parse_args(lay, buf@) == prepend(parse_args(lay.skip(1), r1@), c1, d1));
            assert(r1@ == buf@.skip(c1 as int));
        }
        let (r2, queue_name) = match ShortStr::decode(r1) {
            Ok(v) => v,
            Err(e) => {
                proof {
                    lemma_args_step(lay.skip(1), r1@, c1, d1);
                }
                return Err(e);
            },
        };
        let ghost c2 = (c1 + (r1@.len() - r2@.len())) as nat;
        let ghost d2 = d1.push(ArgModel::ShortStr(queue_name@));
        proof {
            lemma_args_step(lay.skip(1), r1@, c1, d1);
            lemma_skip_skip(buf@, c1 as int, r1@.len() - r2@.len());
            assert(lay.skip(1).skip(1) =~= lay.skip(2));
        }
        proof {
            assert(lay.skip(2)[0] == ArgKind::ShortStr);
            assert(parse_args(lay, buf@) == prepend(parse_args(lay.skip(2), r2@), c2, d2));
            assert(r2@ == buf@.skip(c2 as int));
        }
        let (r3, consumer_tag) = match ShortStr::decode(r2) {
            Ok(v) => v,
            Err(e) => {
                proof {
                    lemma_args_step(lay.skip(2), r2@, c2, d2);
                }
                return Err(e);
            },
        };
        let ghost c3 = (c2 + (r2@.len() - r3@.len())) as nat;
        let ghost d3 = d2.push(ArgModel::ShortStr(consumer_tag@));
        proof {
            lemma_args_step(lay.skip(2), r2@, c2, d2);
            lemma_skip_skip(buf@, c2 as int, r2@.len() - r3@.len());
            assert(lay.skip(2).skip(1) =~= lay.skip(3));
        }
        proof {
            assert(lay.skip(3)[0] == ArgKind::Bits(4));
            assert(parse_args(lay, buf@) == prepend(parse_args(lay.skip(3), r3@), c3, d3));
            assert(r3@ == buf@.skip(c3 as int));
        }
        let (r4, bits) = match decode_u8(r3) {
            Ok(v) => v,
            Err(e) => {
                proof {
                    lemma_args_step(lay.skip(3), r3@, c3, d3);
                }
                return Err(e);
            },
        };
        let ghost c4 = (c3 + (r3@.len() - r4@.len())) as nat;
        let ghost d4 = d3.push(ArgModel::Bits(unpack_bits(bits as int, 4)));
        proof {
            lemma_args_step(lay.skip(3), r3@, c3, d3);
            lemma_skip_skip(buf@, c3 as int, r3@.len() - r4@.len());
            assert(lay.skip(3).skip(1) =~= lay.skip(4));
        }
        let no_local = bits % 2 == 1;
        let bits_1 = bits / 2;
        let no_ack = bits_1 % 2 == 1;
        let bits_2 = bits_1 / 2;
        let exclusive = bits_2 % 2 == 1;
        let bits_3 = bits_2 / 2;
        let no_wait = bits_3 % 2 == 1;
        proof {
            assert(lay.skip(4)[0] == ArgKind::Table);
            assert(parse_args(lay, buf@) == prepend(parse_args(lay.skip(4), r4@), c4, d4));
            assert(r4@ == buf@.skip(c4 as int));
        }
        let (r5, args) = match FieldTable::decode(r4) {
            Ok(v) => v,
            Err(e) => {
                proof {
                    lemma_args_step(lay.skip(4), r4@, c4, d4);
                }
                return Err(e);
            },
        };
        let ghost c5 = (c4 + (r4@.len() - r5@.len())) as nat;
        let ghost d5 = d4.push(ArgModel::Table(args@));
        proof {
            lemma_args_step(lay.skip(4), r4@, c4, d4);
            lemma_skip_skip(buf@, c4 as int, r4@.len() - r5@.len());
            assert(lay.skip(4).skip(1) =~= lay.skip(5));
        }
        let r = BasicConsume { ticket, queue_name, consumer_tag, no_local, no_ack, exclusive, no_wait, args };
        proof {
            reveal_with_fuel(unpack_bits, 5);
            assert(lay.skip(5) =~= Seq::<ArgKind>::empty());
            assert(r@ =~= d5);
        }
        Ok((r5, r))
    }
}

/// Arguments of `Basic.ConsumeOk`.
#[derive(Debug)]
pub struct BasicConsumeOk {
    pub consumer_tag: ShortStr,
}

impl View for BasicConsumeOk {
    type V = Seq<ArgModel>;

    open spec fn view(&self) -> Seq<ArgModel> {
        seq![ArgModel::ShortStr(self.consumer_tag@)] + Seq::<ArgModel>::empty()
    }
}

impl BasicConsumeOk {
    /// The wire types of the fields, in order.
    pub open spec fn layout() -> Seq<ArgKind> {
        seq![ArgKind::ShortStr] + Seq::<ArgKind>::empty()
    }

    /// Every field table in the arguments has a body within a `u32` length.
    pub open spec fn encodable(&self) -> bool {
        true
    }

    pub fn encode(&self, out: &mut Vec<u8>)
        requires
            self.encodable(),
        ensures
            final(out)@ == old(out)@ + enc_args(self@),
    {
        proof {
            reveal_with_fuel(enc_args, 2);
        }
        self.consumer_tag.encode(out);
        assert(out@ =~= old(out)@ + enc_args(self@));
    }

    #[verifier::spinoff_prover]
    #[verifier::rlimit(100)]
    pub fn decode(buf: &[u8]) -> (r: Result<(&[u8], BasicConsumeOk), FrameDecodeErr>)
        ensures
            agrees(buf@, r, parse_args(BasicConsumeOk::layout(), buf@)),
    {
        let ghost lay = BasicConsumeOk::layout();
        let ghost c0: nat = 0;
        let ghost d0 = Seq::<ArgModel>::empty();
        proof {
            lemma_prepend_start(parse_args(lay, buf@));
            assert(lay.skip(0) =~= lay);
            assert(buf@.skip(0) =~= buf@);
        }
        let r0 = buf;
        proof {
            assert(lay.skip(0)[0] == ArgKind::ShortStr);
            assert(parse_args(lay, buf@) == prepend(parse_args(lay.skip(0), r0@), c0, d0));
            assert(r0@ == buf@.skip(c0 as int));
        }
        let (r1, consumer_tag) = match ShortStr::decode(r0) {
            Ok(v) => v,
            Err(e) => {
                proof {
                    lemma_args_step(lay.skip(0), r0@, c0, d0);
                }
                return Err(e);
            },
        };
        let ghost c1 = (c0 + (r0@.len() - r1@.len())) as nat;
        let ghost d1 = d0.push(ArgModel::ShortStr(consumer_tag@));
        proof {
            lemma_args_step(lay.skip(0), r0@, c0, d0);
            lemma_skip_skip(buf@, c0 as int, r0@.len() - r1@.len());
            assert(lay.skip(0).skip(1) =~= lay.skip(1));
        }
        let r = BasicConsumeOk { consumer_tag };
        proof {
            assert(lay.skip(1) =~= Seq::<ArgKind>::empty());
            assert(r@ =~= d1);
        }
        Ok((r1, r))
    }
}

/// Arguments of `Basic.Cancel`.
#[derive(Debug)]
pub struct BasicCancel {
    pub consumer_tag: ShortStr,
    pub no_wait: bool,
}

impl View for BasicCancel {
    type V = Seq<ArgModel>;

    open spec fn view(&self) -> Seq<ArgModel> {
        seq![ArgModel::ShortStr(self.consumer_tag@)] + (seq![ArgModel::Bits(seq![self.no_wait] + Seq::<bool>::empty())] + Seq::<ArgModel>::empty())
    }
}

impl BasicCancel {
    /// The wire types of the fields, in order.
    pub open spec fn layout() -> Seq<ArgKind> {
        seq![ArgKind::ShortStr] + (seq![ArgKind::Bits(1)] + Seq::<ArgKind>::empty())
    }

    /// Every field table in the arguments has a body within a `u32` length.
    pub open spec fn encodable(&self) -> bool {
        true
    }

    pub fn encode(&self, out: &mut Vec<u8>)
        requires
            self.encodable(),
        ensures
            final(out)@ == old(out)@ + enc_args(self@),
    {
        proof {
            reveal_with_fuel(enc_args, 3);
            reveal_with_fuel(pack_bits, 2);
        }
        self.consumer_tag.encode(out);
        put_u8(out, bit(self.no_wait));
        assert(out@ =~= old(out)@ + enc_args(self@));
    }

    #[verifier::spinoff_prover]
    #[verifier::rlimit(100)]
    pub fn decode(buf: &[u8]) -> (r: Result<(&[u8], BasicCancel), FrameDecodeErr>)
        ensures
            agrees(buf@, r, parse_args(BasicCancel::layout(), buf@)),
    {
        let ghost lay = BasicCancel::layout();
        let ghost c0: nat = 0;
        let ghost d0 = Seq::<ArgModel>::empty();
        proof {
            lemma_prepend_start(parse_args(lay, buf@));
            assert(lay.skip(0) =~= lay);
            assert(buf@.skip(0) =~= buf@);
        }
        let r0 = buf;
        proof {
            assert(lay.skip(0)[0] == ArgKind::ShortStr);
            assert(parse_args(lay, buf@) == prepend(parse_args(lay.skip(0), r0@), c0, d0));
            assert(r0@ == buf@.skip(c0 as int));
        }
        let (r1, consumer_tag) = match ShortStr::decode(r0) {
            Ok(v) => v,
            Err(e) => {
                proof {
                    lemma_args_step(lay.skip(0), r0@, c0, d0);
                }
                return Err(e);
            },
        };
        let ghost c1 = (c0 + (r0@.len() - r1@.len())) as nat;
        let ghost d1 = d0.push(ArgModel::ShortStr(consumer_tag@));
        proof {
            lemma_args_step(lay.skip(0), r0@, c0, d0);
            lemma_skip_skip(buf@, c0 as int, r0@.len() - r1@.len());
            assert(lay.skip(0).skip(1) =~= lay.skip(1));
        }
        proof {
            assert(lay.skip(1)[0] == ArgKind::Bits(1));
            assert(parse_args(lay, buf@) == prepend(parse_args(lay.skip(1), r1@), c1, d1));
            assert(r1@ == buf@.skip(c1 as int));
        }
        let (r2, bits) = match decode_u8(r1) {
            Ok(v) => v,
            Err(e) => {
                proof {
                    lemma_args_step(lay.skip(1), r1@, c1, d1);
                }
                return Err(e);
            },
        };
        let ghost c2 = (c1 + (r1@.len() - r2@.len())) as nat;
        let ghost d2 = d1.push(ArgModel::Bits(unpack_bits(bits as int, 1)));
        proof {
            lemma_args_step(lay.skip(1), r1@, c1, d1);
            lemma_skip_skip(buf@, c1 as int, r1@.len() - r2@.len());
            assert(lay.skip(1).skip(1) =~= lay.skip(2));
        }
        let no_wait = bits % 2 == 1;
        let r = BasicCancel { consumer_tag, no_wait };
        proof {
            reveal_with_fuel(unpack_bits, 2);
            assert(lay.skip(2) =~= Seq::<ArgKind>::empty());
            assert(r@ =~= d2);
        }
        Ok((r2, r))
    }
}

/// Arguments of `Basic.CancelOk`.
#[derive(Debug)]
pub struct BasicCancelOk {
    pub consumer_tag: ShortStr,
}

impl View for BasicCancelOk {
    type V = Seq<ArgModel>;

    open spec fn view(&self) -> Seq<ArgModel> {
        seq![ArgModel::ShortStr(self.consumer_tag@)] + Seq::<ArgModel>::empty()
    }
}

impl BasicCancelOk {
    /// The wire types of the fields, in order.
    pub open spec fn layout() -> Seq<ArgKind> {
        seq![ArgKind::ShortStr] + Seq::<ArgKind>::empty()
    }

    /// Every field table in the arguments has a body within a `u32` length.
    pub open spec fn encodable(&self) -> bool {
        true
    }

    pub fn encode(&self, out: &mut Vec<u8>)
        requires
            self.encodable(),
        ensures
            final(out)@ == old(out)@ + enc_args(self@),
    {
        proof {
            reveal_with_fuel(enc_args, 2);
        }
        self.consumer_tag.encode(out);
        assert(out@ =~= old(out)@ + enc_args(self@));
    }

    #[verifier::spinoff_prover]
    #[verifier::rlimit(100)]
    pub fn decode(buf: &[u8]) -> (r: Result<(&[u8], BasicCancelOk), FrameDecodeErr>)
        ensures
            agrees(buf@, r, parse_args(BasicCancelOk::layout(), buf@)),
    {
        let ghost lay = BasicCancelOk::layout();
        let ghost c0: nat = 0;
        let ghost d0 = Seq::<ArgModel>::empty();
        proof {
            lemma_prepend_start(parse_args(lay, buf@));
            assert(lay.skip(0) =~= lay);
            assert(buf@.skip(0) =~= buf@);
        }
        let r0 = buf;
        proof {
            assert(lay.skip(0)[0] == ArgKind::ShortStr);
            assert(parse_args(lay, buf@) == prepend(parse_args(lay.skip(0), r0@), c0, d0));
            assert(r0@ == buf@.skip(c0 as int));
        }
        let (r1, consumer_tag) = match ShortStr::decode(r0) {
            Ok(v) => v,
            Err(e) => {
                proof {
                    lemma_args_step(lay.skip(0), r0@, c0, d0);
                }
                return Err(e);
            },
        };
        let ghost c1 = (c0 + (r0@.len() - r1@.len())) as nat;
        let ghost d1 = d0.push(ArgModel::ShortStr(consumer_tag@));
        proof {
            lemma_args_step(lay.skip(0), r0@, c0, d0);
            lemma_skip_skip(buf@, c0 as int, r0@.len() - r1@.len());
            assert(lay.skip(0).skip(1) =~= lay.skip(1));
        }
        let r = BasicCancelOk { consumer_tag };
        proof {
            assert(lay.skip(1) =~= Seq::<ArgKind>::empty());
            assert(r@ =~= d1);
        }
        Ok((r1, r))
    }
}

/// Arguments of `Basic.Publish`.
#[derive(Debug)]
pub struct BasicPublish {
    pub ticket: u16,
    pub exchange_name: ShortStr,
    pub routing_key: ShortStr,
    pub mandatory: bool,
    pub immediate: bool,
}

impl View for BasicPublish {
    type V = Seq<ArgModel>;

    open spec fn view(&self) -> Seq<ArgModel> {
        seq![ArgModel::Short(self.ticket)] + (seq![ArgModel::ShortStr(self.exchange_name@)] + (seq![ArgModel::ShortStr(self.routing_key@)] + (seq![ArgModel::Bits(seq![self.mandatory] + (seq![self.immediate] + Seq::<bool>::empty()))] + Seq::<ArgModel>::empty())))
    }
}

impl BasicPublish {
    /// The wire types of the fields, in order.
    pub open spec fn layout() -> Seq<ArgKind> {
        seq![ArgKind::Short] + (seq![ArgKind::ShortStr] + (seq![ArgKind::ShortStr] + (seq![ArgKind::Bits(2)] + Seq::<ArgKind>::empty())))
    }

    /// Every field table in the arguments has a body within a `u32` length.
    pub open spec fn encodable(&self) -> bool {
        true
    }

    pub fn encode(&self, out: &mut Vec<u8>)
        requires
            self.encodable(),
        ensures
            final(out)@ == old(out)@ + enc_args(self@),
    {
        proof {
            reveal_with_fuel(enc_args, 5);
            reveal_with_fuel(pack_bits, 3);
        }
        put_u16(out, self.ticket);
        self.exchange_name.encode(out);
        self.routing_key.encode(out);
        put_u8(out, bit(self.mandatory) + 2 * (bit(self.immediate)));
        assert(out@ =~= old(out)@ + enc_args(self@));
    }

    #[verifier::spinoff_prover]
    #[verifier::rlimit(100)]
    pub fn decode(buf: &[u8]) -> (r: Result<(&[u8], BasicPublish), FrameDecodeErr>)
        ensures
            agrees(buf@, r, parse_args(BasicPublish::layout(), buf@)),
    {
        let ghost lay = BasicPublish::layout();
        let ghost c0: nat = 0;
        let ghost d0 = Seq::<ArgModel>::empty();
        proof {
            lemma_prepend_start(parse_args(lay, buf@));
            assert(lay.skip(0) =~= lay);
            assert(buf@.skip(0) =~= buf@);
        }
        let r0 = buf;
        proof {
            assert(lay.skip(0)[0] == ArgKind::Short);
            assert(parse_args(lay, buf@) == prepend(parse_args(lay.skip(0), r0@), c0, d0));
            assert(r0@ == buf@.skip(c0 as int));
        }
        let (r1, ticket) = match decode_u16(r0) {
            Ok(v) => v,
            Err(e) => {
                proof {
                    lemma_args_step(lay.skip(0), r0@, c0, d0);
                }
                return Err(e);
            },
        };
        let ghost c1 = (c0 + (r0@.len() - r1@.len())) as nat;
        let ghost d1 = d0.push(ArgModel::Short(ticket));
        proof {
            lemma_args_step(lay.skip(0), r0@, c0, d0);
            lemma_skip_skip(buf@, c0 as int, r0@.len() - r1@.len());
            assert(lay.skip(0).skip(1) =~= lay.skip(1));
        }
        proof {
            assert(lay.skip(1)[0] == ArgKind::ShortStr);
            assert(parse_args(lay, buf@) == prepend(parse_args(lay.skip(1), r1@), c1, d1));
            assert(r1@ == buf@.skip(c1 as int));
        }
        let (r2, exchange_name) = match ShortStr::decode(r1) {
            Ok(v) => v,
            Err(e) => {
                proof {
                    lemma_args_step(lay.skip(1), r1@, c1, d1);
                }
                return Err(e);
            },
        };
        let ghost c2 = (c1 + (r1@.len() - r2@.len())) as nat;
        let ghost d2 = d1.push(ArgModel::ShortStr(exchange_name@));
        proof {
            lemma_args_step(lay.skip(1), r1@, c1, d1);
            lemma_skip_skip(buf@, c1 as int, r1@.len() - r2@.len());
            assert(lay.skip(1).skip(1) =~= lay.skip(2));
        }
        proof {
            assert(lay.skip(2)[0] == ArgKind::ShortStr);
            assert(parse_args(lay, buf@) == prepend(parse_args(lay.skip(2), r2@), c2, d2));
            assert(r2@ == buf@.skip(c2 as int));
        }
        let (r3, routing_key) = match ShortStr::decode(r2) {
            Ok(v) => v,
            Err(e) => {
                proof {
                    lemma_args_step(lay.skip(2), r2@, c2, d2);
                }
                return Err(e);
            },
        };
        let ghost c3 = (c2 + (r2@.len() - r3@.len())) as nat;
        let ghost d3 = d2.push(ArgModel::ShortStr(routing_key@));
        proof {
            lemma_args_step(lay.skip(2), r2@, c2, d2);
            lemma_skip_skip(buf@, c2 as int, r2@.len() - r3@.len());
            assert(lay.skip(2).skip(1) =~= lay.skip(3));
        }
        proof {
            assert(lay.skip(3)[0] == ArgKind::Bits(2));
            assert(parse_args(lay, buf@) == prepend(parse_args(lay.skip(3), r3@), c3, d3));
            assert(r3@ == buf@.skip(c3 as int));
        }
        let (r4, bits) = match decode_u8(r3) {
            Ok(v) => v,
            Err(e) => {
                proof {
                    lemma_args_step(lay.skip(3), r3@, c3, d3);
                }
                return Err(e);
            },
        };
        let ghost c4 = (c3 + (r3@.len() - r4@.len())) as nat;
        let ghost d4 = d3.push(ArgModel::Bits(unpack_bits(bits as int, 2)));
        proof {
            lemma_args_step(lay.skip(3), r3@, c3, d3);
            lemma_skip_skip(buf@, c3 as int, r3@.len() - r4@.len());
            assert(lay.skip(3).skip(1) =~= lay.skip(4));
        }
        let mandatory = bits % 2 == 1;
        let bits_1 = bits / 2;
        let immediate = bits_1 % 2 == 1;
        let r = BasicPublish { ticket, exchange_name, routing_key, mandatory, immediate };
        proof {
            reveal_with_fuel(unpack_bits, 3);
            assert(lay.skip(4) =~= Seq::<ArgKind>::empty());
            assert(r@ =~= d4);
        }
        Ok((r4, r))
    }
}

/// Arguments of `Basic.Return`.
#[derive(Debug)]
pub struct BasicReturn {
    pub reply_code: u16,
    pub reply_text: ShortStr,
    pub exchange_name: ShortStr,
    pub routing_key: ShortStr,
}

impl View for BasicReturn {
    type V = Seq<ArgModel>;

    open spec fn view(&self) -> Seq<ArgModel> {
        seq![ArgModel::Short(self.reply_code)] + (seq![ArgModel::ShortStr(self.reply_text@)] + (seq![ArgModel::ShortStr(self.exchange_name@)] + (seq![ArgModel::ShortStr(self.routing_key@)] + Seq::<ArgModel>::empty())))
    }
}

impl BasicReturn {
    /// The wire types of the fields, in order.
    pub open spec fn layout() -> Seq<ArgKind> {
        seq![ArgKind::Short] + (seq![ArgKind::ShortStr] + (seq![ArgKind::ShortStr] + (seq![ArgKind::ShortStr] + Seq::<ArgKind>::empty())))
    }

    /// Every field table in the arguments has a body within a `u32` length.
    pub open spec fn encodable(&self) -> bool {
        true
    }

    pub fn encode(&self, out: &mut Vec<u8>)
        requires
            self.encodable(),
        ensures
            final(out)@ == old(out)@ + enc_args(self@),
    {
        proof {
            reveal_with_fuel(enc_args, 5);
        }
        put_u16(out, self.reply_code);
        self.reply_text.encode(out);
        self.exchange_name.encode(out);
        self.routing_key.encode(out);
        assert(out@ =~= old(out)@ + enc_args(self@));
    }

    #[verifier::spinoff_prover]
    #[verifier::rlimit(100)]
    pub fn decode(buf: &[u8]) -> (r: Result<(&[u8], BasicReturn), FrameDecodeErr>)
        ensures
            agrees(buf@, r, parse_args(BasicReturn::layout(), buf@)),
    {
        let ghost lay = BasicReturn::layout();
        let ghost c0: nat = 0;
        let ghost d0 = Seq::<ArgModel>::empty();
        proof {
            lemma_prepend_start(parse_args(lay, buf@));
            assert(lay.skip(0) =~= lay);
            assert(buf@.skip(0) =~= buf@);
        }
        let r0 = buf;
        proof {
            assert(lay.skip(0)[0] == ArgKind::Short);
            assert(parse_args(lay, buf@) == prepend(parse_args(lay.skip(0), r0@), c0, d0));
            assert(r0@ == buf@.skip(c0 as int));
        }
        let (r1, reply_code) = match decode_u16(r0) {
            Ok(v) => v,
            Err(e) => {
                proof {
                    lemma_args_step(lay.skip(0), r0@, c0, d0);
                }
                return Err(e);
            },
        };
        let ghost c1 = (c0 + (r0@.len() - r1@.len())) as nat;
        let ghost d1 = d0.push(ArgModel::Short(reply_code));
        proof {
            lemma_args_step(lay.skip(0), r0@, c0, d0);
            lemma_skip_skip(buf@, c0 as int, r0@.len() - r1@.len());
            assert(lay.skip(0).skip(1) =~= lay.skip(1));
        }
        proof {
            assert(lay.skip(1)[0] == ArgKind::ShortStr);
            assert(parse_args(lay, buf@) == prepend(parse_args(lay.skip(1), r1@), c1, d1));
            assert(r1@ == buf@.skip(c1 as int));
        }
        let (r2, reply_text) = match ShortStr::decode(r1) {
            Ok(v) => v,
            Err(e) => {
                proof {
                    lemma_args_step(lay.skip(1), r1@, c1, d1);
                }
                return Err(e);
            },
        };
        let ghost c2 = (c1 + (r1@.len() - r2@.len())) as nat;
        let ghost d2 = d1.push(ArgModel::ShortStr(reply_text@));
        proof {
            lemma_args_step(lay.skip(1), r1@, c1, d1);
            lemma_skip_skip(buf@, c1 as int, r1@.len() - r2@.len());
            assert(lay.skip(1).skip(1) =~= lay.skip(2));
        }
        proof {
            assert(lay.skip(2)[0] == ArgKind::ShortStr);
            assert(parse_args(lay, buf@) == prepend(parse_args(lay.skip(2), r2@), c2, d2));
            assert(r2@ == buf@.skip(c2 as int));
        }
        let (r3, exchange_name) = match ShortStr::decode(r2) {
            Ok(v) => v,
            Err(e) => {
                proof {
                    lemma_args_step(lay.skip(2), r2@, c2, d2);
                }
                return Err(e);
            },
        };
        let ghost c3 = (c2 + (r2@.len() - r3@.len())) as nat;
        let ghost d3 = d2.push(ArgModel::ShortStr(exchange_name@));
        proof {
            lemma_args_step(lay.skip(2), r2@, c2, d2);
            lemma_skip_skip(buf@, c2 as int, r2@.len() - r3@.len());
            assert(lay.skip(2).skip(1) =~= lay.skip(3));
        }
        proof {
            assert(lay.skip(3)[0] == ArgKind::ShortStr);
            assert(parse_args(lay, buf@) == prepend(parse_args(lay.skip(3), r3@), c3, d3));
            assert(r3@ == buf@.skip(c3 as int));
        }
        let (r4, routing_key) = match ShortStr::decode(r3) {
            Ok(v) => v,
            Err(e) => {
                proof {
                    lemma_args_step(lay.skip(3), r3@, c3, d3);
                }
                return Err(e);
            },
        };
        let ghost c4 = (c3 + (r3@.len() - r4@.len())) as nat;
        let ghost d4 = d3.push(ArgModel::ShortStr(routing_key@));
        proof {
            lemma_args_step(lay.skip(3), r3@, c3, d3);
            lemma_skip_skip(buf@, c3 as int, r3@.len() - r4@.len());
            assert(lay.skip(3).skip(1) =~= lay.skip(4));
        }
        let r = BasicReturn { reply_code, reply_text, exchange_name, routing_key };
        proof {
            assert(lay.skip(4) =~= Seq::<ArgKind>::empty());
            assert(r@ =~= d4);
        }
        Ok((r4, r))
    }
}

/// Arguments of `Basic.Deliver`.
#[derive(Debug)]
pub struct BasicDeliver {
    pub consumer_tag: ShortStr,
    pub delivery_tag: u64,
    pub redelivered: bool,
    pub exchange_name: ShortStr,
    pub routing_key: ShortStr,
}

impl View for BasicDeliver {
    type V = Seq<ArgModel>;

    open spec fn view(&self) -> Seq<ArgModel> {
        seq![ArgModel::ShortStr(self.consumer_tag@)] + (seq![ArgModel::LongLong(self.delivery_tag)] + (seq![ArgModel::Bits(seq![self.redelivered] + Seq::<bool>::empty())] + (seq![ArgModel::ShortStr(self.exchange_name@)] + (seq![ArgModel::ShortStr(self.routing_key@)] + Seq::<ArgModel>::empty()))))
    }
}

impl BasicDeliver {
    /// The wire types of the fields, in order.
    pub open spec fn layout() -> Seq<ArgKind> {
        seq![ArgKind::ShortStr] + (seq![ArgKind::LongLong] + (seq![ArgKind::Bits(1)] + (seq![ArgKind::ShortStr] + (seq![ArgKind::ShortStr] + Seq::<ArgKind>::empty()))))
    }

    /// Every field table in the arguments has a body within a `u32` length.
    pub open spec fn encodable(&self) -> bool {
        true
    }

    pub fn encode(&self, out: &mut Vec<u8>)
        requires
            self.encodable(),
        ensures
            final(out)@ == old(out)@ + enc_args(self@),
    {
        proof {
            reveal_with_fuel(enc_args, 6);
            reveal_with_fuel(pack_bits, 2);
        }
        self.consumer_tag.encode(out);
        put_u64(out, self.delivery_tag);
        put_u8(out, bit(self.redelivered));
        self.exchange_name.encode(out);
        self.routing_key.encode(out);
        assert(out@ =~= old(out)@ + enc_args(self@));
    }

    #[verifier::spinoff_prover]
    #[verifier::rlimit(100)]
    pub fn decode(buf: &[u8]) -> (r: Result<(&[u8], BasicDeliver), FrameDecodeErr>)
        ensures
            agrees(buf@, r, parse_args(BasicDeliver::layout(), buf@)),
    {
        let ghost lay = BasicDeliver::layout();
        let ghost c0: nat = 0;
        let ghost d0 = Seq::<ArgModel>::empty();
        proof {
            lemma_prepend_start(parse_args(lay, buf@));
            assert(lay.skip(0) =~= lay);
            assert(buf@.skip(0) =~= buf@);
        }
        let r0 = buf;
        proof {
            assert(lay.skip(0)[0] == ArgKind::ShortStr);
            assert(parse_args(lay, buf@) == prepend(parse_args(lay.skip(0), r0@), c0, d0));
            assert(r0@ == buf@.skip(c0 as int));
        }
        let (r1, consumer_tag) = match ShortStr::decode(r0) {
            Ok(v) => v,
            Err(e) => {
                proof {
                    lemma_args_step(lay.skip(0), r0@, c0, d0);
                }
                return Err(e);
            },
        };
        let ghost c1 = (c0 + (r0@.len() - r1@.len())) as nat;
        let ghost d1 = d0.push(ArgModel::ShortStr(consumer_tag@));
        proof {
            lemma_args_step(lay.skip(0), r0@, c0, d0);
            lemma_skip_skip(buf@, c0 as int, r0@.len() - r1@.len());
            assert(lay.skip(0).skip(1) =~= lay.skip(1));
        }
        proof {
            assert(lay.skip(1)[0] == ArgKind::LongLong);
            assert(parse_args(lay, buf@) == prepend(parse_args(lay.skip(1), r1@), c1, d1));
            assert(r1@ == buf@.skip(c1 as int));
        }
        let (r2, delivery_tag) = match decode_u64(r1) {
            Ok(v) => v,
            Err(e) => {
                proof {
                    lemma_args_step(lay.skip(1), r1@, c1, d1);
                }
                return Err(e);
            },
        };
        let ghost c2 = (c1 + (r1@.len() - r2@.len())) as nat;
        let ghost d2 = d1.push(ArgModel::LongLong(delivery_tag));
        proof {
            lemma_args_step(lay.skip(1), r1@, c1, d1);
            lemma_skip_skip(buf@, c1 as int, r1@.len() - r2@.len());
            assert(lay.skip(1).skip(1) =~= lay.skip(2));
        }
        proof {
            assert(lay.skip(2)[0] == ArgKind::Bits(1));
            assert(parse_args(lay, buf@) == prepend(parse_args(lay.skip(2), r2@), c2, d2));
            assert(r2@ == buf@.skip(c2 as int));
        }
        let (r3, bits) = match decode_u8(r2) {
            Ok(v) => v,
            Err(e) => {
                proof {
                    lemma_args_step(lay.skip(2), r2@, c2, d2);
                }
                return Err(e);
            },
        };
        let ghost c3 = (c2 + (r2@.len() - r3@.len())) as nat;
        let ghost d3 = d2.push(ArgModel::Bits(unpack_bits(bits as int, 1)));
        proof {
            lemma_args_step(lay.skip(2), r2@, c2, d2);
            lemma_skip_skip(buf@, c2 as int, r2@.len() - r3@.len());
            assert(lay.skip(2).skip(1) =~= lay.skip(3));
        }
        let redelivered = bits % 2 == 1;
        proof {
            assert(lay.skip(3)[0] == ArgKind::ShortStr);
            assert(parse_args(lay, buf@) == prepend(parse_args(lay.skip(3), r3@), c3, d3));
            assert(r3@ == buf@.skip(c3 as int));
        }
        let (r4, exchange_name) = match ShortStr::decode(r3) {
            Ok(v) => v,
            Err(e) => {
                proof {
                    lemma_args_step(lay.skip(3), r3@, c3, d3);
                }
                return Err(e);
            },
        };
        let ghost c4 = (c3 + (r3@.len() - r4@.len())) as nat;
        let ghost d4 = d3.push(ArgModel::ShortStr(exchange_name@));
        proof {
            lemma_args_step(lay.skip(3), r3@, c3, d3);
            lemma_skip_skip(buf@, c3 as int, r3@.len() - r4@.len());
            assert(lay.skip(3).skip(1) =~= lay.skip(4));
        }
        proof {
            assert(lay.skip(4)[0] == ArgKind::ShortStr);
            assert(parse_args(lay, buf@) == prepend(parse_args(lay.skip(4), r4@), c4, d4));
            assert(r4@ == buf@.skip(c4 as int));
        }
        let (r5, routing_key) = match ShortStr::decode(r4) {
            Ok(v) => v,
            Err(e) => {
                proof {
                    lemma_args_step(lay.skip(4), r4@, c4, d4);
                }
                return Err(e);
            },
        };
        let ghost c5 = (c4 + (r4@.len() - r5@.len())) as nat;
        let ghost d5 = d4.push(ArgModel::ShortStr(routing_key@));
        proof {
            lemma_args_step(lay.skip(4), r4@, c4, d4);
            lemma_skip_skip(buf@, c4 as int, r4@.len() - r5@.len());
            assert(lay.skip(4).skip(1) =~= lay.skip(5));
        }
        let r = BasicDeliver { consumer_tag, delivery_tag, redelivered, exchange_name, routing_key };
        proof {
            reveal_with_fuel(unpack_bits, 2);
            assert(lay.skip(5) =~= Seq::<ArgKind>::empty());
            assert(r@ =~= d5);
        }
        Ok((r5, r))
    }
}

/// Arguments of `Basic.Get`.
#[derive(Debug)]
pub struct BasicGet {
    pub ticket: u16,
    pub queue_name: ShortStr,
    pub no_ack: bool,
}

impl View for BasicGet {
    type V = Seq<ArgModel>;

    open spec fn view(&self) -> Seq<ArgModel> {
        seq![ArgModel::Short(self.ticket)] + (seq![ArgModel::ShortStr(self.queue_name@)] + (seq![ArgModel::Bits(seq![self.no_ack] + Seq::<bool>::empty())] + Seq::<ArgModel>::empty()))
    }
}

impl BasicGet {
    /// The wire types of the fields, in order.
    pub open spec fn layout() -> Seq<ArgKind> {
        seq![ArgKind::Short] + (seq![ArgKind::ShortStr] + (seq![ArgKind::Bits(1)] + Seq::<ArgKind>::empty()))
    }

    /// Every field table in the arguments has a body within a `u32` length.
    pub open spec fn encodable(&self) -> bool {
        true
    }

    pub fn encode(&self, out: &mut Vec<u8>)
        requires
            self.encodable(),
        ensures
            final(out)@ == old(out)@ + enc_args(self@),
    {
        proof {
            reveal_with_fuel(enc_args, 4);
            reveal_with_fuel(pack_bits, 2);
        }
        put_u16(out, self.ticket);
        self.queue_name.encode(out);
        put_u8(out, bit(self.no_ack));
        assert(out@ =~= old(out)@ + enc_args(self@));
    }

    #[verifier::spinoff_prover]
    #[verifier::rlimit(100)]
    pub fn decode(buf: &[u8]) -> (r: Result<(&[u8], BasicGet), FrameDecodeErr>)
        ensures
            agrees(buf@, r, parse_args(BasicGet::layout(), buf@)),
    {
        let ghost lay = BasicGet::layout();
        let ghost c0: nat = 0;
        let ghost d0 = Seq::<ArgModel>::empty();
        proof {
            lemma_prepend_start(parse_args(lay, buf@));
            assert(lay.skip(0) =~= lay);
            assert(buf@.skip(0) =~= buf@);
        }
        let r0 = buf;
        proof {
            assert(lay.skip(0)[0] == ArgKind::Short);
            assert(parse_args(lay, buf@) == prepend(parse_args(lay.skip(0), r0@), c0, d0));
            assert(r0@ == buf@.skip(c0 as int));
        }
        let (r1, ticket) = match decode_u16(r0) {
            Ok(v) => v,
            Err(e) => {
                proof {
                    lemma_args_step(lay.skip(0), r0@, c0, d0);
                }
                return Err(e);
            },
        };
        let ghost c1 = (c0 + (r0@.len() - r1@.len())) as nat;
        let ghost d1 = d0.push(ArgModel::Short(ticket));
        proof {
            lemma_args_step(lay.skip(0), r0@, c0, d0);
            lemma_skip_skip(buf@, c0 as int, r0@.len() - r1@.len());
            assert(lay.skip(0).skip(1) =~= lay.skip(1));
        }
        proof {
            assert(lay.skip(1)[0] == ArgKind::ShortStr);
            assert(parse_args(lay, buf@) == prepend(parse_args(lay.skip(1), r1@), c1, d1));
            assert(r1@ == buf@.skip(c1 as int));
        }
        let (r2, queue_name) = match ShortStr::decode(r1) {
            Ok(v) => v,
            Err(e) => {
                proof {
                    lemma_args_step(lay.skip(1), r1@, c1, d1);
                }
                return Err(e);
            },
        };
        let ghost c2 = (c1 + (r1@.len() - r2@.len())) as nat;
        let ghost d2 = d1.push(ArgModel::ShortStr(queue_name@));
        proof {
            lemma_args_step(lay.skip(1), r1@, c1, d1);
            lemma_skip_skip(buf@, c1 as int, r1@.len() - r2@.len());
            assert(lay.skip(1).skip(1) =~= lay.skip(2));
        }
        proof {
            assert(lay.skip(2)[0] == ArgKind::Bits(1));
            assert(parse_args(lay, buf@) == prepend(parse_args(lay.skip(2), r2@), c2, d2));
            assert(r2@ == buf@.skip(c2 as int));
        }
        let (r3, bits) = match decode_u8(r2) {
            Ok(v) => v,
            Err(e) => {
                proof {
                    lemma_args_step(lay.skip(2), r2@, c2, d2);
                }
                return Err(e);
            },
        };
        let ghost c3 = (c2 + (r2@.len() - r3@.len())) as nat;
        let ghost d3 = d2.push(ArgModel::Bits(unpack_bits(bits as int, 1)));
        proof {
            lemma_args_step(lay.skip(2), r2@, c2, d2);
            lemma_skip_skip(buf@, c2 as int, r2@.len() - r3@.len());
            assert(lay.skip(2).skip(1) =~= lay.skip(3));
        }
        let no_ack = bits % 2 == 1;
        let r = BasicGet { ticket, queue_name, no_ack };
        proof {
            reveal_with_fuel(unpack_bits, 2);
            assert(lay.skip(3) =~= Seq::<ArgKind>::empty());
            assert(r@ =~= d3);
        }
        Ok((r3, r))
    }
}

/// Arguments of `Basic.GetOk`.
#[derive(Debug)]
pub struct BasicGetOk {
    pub delivery_tag: u64,
    pub redelivered: bool,
    pub exchange_name: ShortStr,
    pub routing_key: ShortStr,
    pub message_count: u32,
}

impl View for BasicGetOk {
    type V = Seq<ArgModel>;

    open spec fn view(&self) -> Seq<ArgModel> {
        seq![ArgModel::LongLong(self.delivery_tag)] + (seq![ArgModel::Bits(seq![self.redelivered] + Seq::<bool>::empty())] + (seq![ArgModel::ShortStr(self.exchange_name@)] + (seq![ArgModel::ShortStr(self.routing_key@)] + (seq![ArgModel::Long(self.message_count)] + Seq::<ArgModel>::empty()))))
    }
}

impl BasicGetOk {
    /// The wire types of the fields, in order.
    pub open spec fn layout() -> Seq<ArgKind> {
        seq![ArgKind::LongLong] + (seq![ArgKind::Bits(1)] + (seq![ArgKind::ShortStr] + (seq![ArgKind::ShortStr] + (seq![ArgKind::Long] + Seq::<ArgKind>::empty()))))
    }

    /// Every field table in the arguments has a body within a `u32` length.
    pub open spec fn encodable(&self) -> bool {
        true
    }

    pub fn encode(&self, out: &mut Vec<u8>)
        requires
            self.encodable(),
        ensures
            final(out)@ == old(out)@ + enc_args(self@),
    {
        proof {
            reveal_with_fuel(enc_args, 6);
            reveal_with_fuel(pack_bits, 2);
        }
        put_u64(out, self.delivery_tag);
        put_u8(out, bit(self.redelivered));
        self.exchange_name.encode(out);
        self.routing_key.encode(out);
        put_u32(out, self.message_count);
        assert(out@ =~= old(out)@ + enc_args(self@));
    }

    #[verifier::spinoff_prover]
    #[verifier::rlimit(100)]
    pub fn decode(buf: &[u8]) -> (r: Result<(&[u8], BasicGetOk), FrameDecodeErr>)
        ensures
            agrees(buf@, r, parse_args(BasicGetOk::layout(), buf@)),
    {
        let ghost lay = BasicGetOk::layout();
        let ghost c0: nat = 0;
        let ghost d0 = Seq::<ArgModel>::empty();
        proof {
            lemma_prepend_start(parse_args(lay, buf@));
            assert(lay.skip(0) =~= lay);
            assert(buf@.skip(0) =~= buf@);
        }
        let r0 = buf;
        proof {
            assert(lay.skip(0)[0] == ArgKind::LongLong);
            assert(parse_args(lay, buf@) == prepend(parse_args(lay.skip(0), r0@), c0, d0));
            assert(r0@ == buf@.skip(c0 as int));
        }
        let (r1, delivery_tag) = match decode_u64(r0) {
            Ok(v) => v,
            Err(e) => {
                proof {
                    lemma_args_step(lay.skip(0), r0@, c0, d0);
                }
                return Err(e);
            },
        };
        let ghost c1 = (c0 + (r0@.len() - r1@.len())) as nat;
        let ghost d1 = d0.push(ArgModel::LongLong(delivery_tag));
        proof {
            lemma_args_step(lay.skip(0), r0@, c0, d0);
            lemma_skip_skip(buf@, c0 as int, r0@.len() - r1@.len());
            assert(lay.skip(0).skip(1) =~= lay.skip(1));
        }
        proof {
            assert(lay.skip(1)[0] == ArgKind::Bits(1));
            assert(parse_args(lay, buf@) == prepend(parse_args(lay.skip(1), r1@), c1, d1));
            assert(r1@ == buf@.skip(c1 as int));
        }
        let (r2, bits) = match decode_u8(r1) {
            Ok(v) => v,
            Err(e) => {
                proof {
                    lemma_args_step(lay.skip(1), r1@, c1, d1);
                }
                return Err(e);
            },
        };
        let ghost c2 = (c1 + (r1@.len() - r2@.len())) as nat;
        let ghost d2 = d1.push(ArgModel::Bits(unpack_bits(bits as int, 1)));
        proof {
            lemma_args_step(lay.skip(1), r1@, c1, d1);
            lemma_skip_skip(buf@, c1 as int, r1@.len() - r2@.len());
            assert(lay.skip(1).skip(1) =~= lay.skip(2));
        }
        let redelivered = bits % 2 == 1;
        proof {
            assert(lay.skip(2)[0] == ArgKind::ShortStr);
            assert(parse_args(lay, buf@) == prepend(parse_args(lay.skip(2), r2@), c2, d2));
            assert(r2@ == buf@.skip(c2 as int));
        }
        let (r3, exchange_name) = match ShortStr::decode(r2) {
            Ok(v) => v,
            Err(e) => {
                proof {
                    lemma_args_step(lay.skip(2), r2@, c2, d2);
                }
                return Err(e);
            },
        };
        let ghost c3 = (c2 + (r2@.len() - r3@.len())) as nat;
        let ghost d3 = d2.push(ArgModel::ShortStr(exchange_name@));
        proof {
            lemma_args_step(lay.skip(2), r2@, c2, d2);
            lemma_skip_skip(buf@, c2 as int, r2@.len() - r3@.len());
            assert(lay.skip(2).skip(1) =~= lay.skip(3));
        }
        proof {
            assert(lay.skip(3)[0] == ArgKind::ShortStr);
            assert(parse_args(lay, buf@) == prepend(parse_args(lay.skip(3), r3@), c3, d3));
            assert(r3@ == buf@.skip(c3 as int));
        }
        let (r4, routing_key) = match ShortStr::decode(r3) {
            Ok(v) => v,
            Err(e) => {
                proof {
                    lemma_args_step(lay.skip(3), r3@, c3, d3);
                }
                return Err(e);
            },
        };
        let ghost c4 = (c3 + (r3@.len() - r4@.len())) as nat;
        let ghost d4 = d3.push(ArgModel::ShortStr(routing_key@));
        proof {
            lemma_args_step(lay.skip(3), r3@, c3, d3);
            lemma_skip_skip(buf@, c3 as int, r3@.len() - r4@.len());
            assert(lay.skip(3).skip(1) =~= lay.skip(4));
        }
        proof {
            assert(lay.skip(4)[0] == ArgKind::Long);
            assert(parse_args(lay, buf@) == prepend(parse_args(lay.skip(4), r4@), c4, d4));
            assert(r4@ == buf@.skip(c4 as int));
        }
        let (r5, message_count) = match decode_u32(r4) {
            Ok(v) => v,
            Err(e) => {
                proof {
                    lemma_args_step(lay.skip(4), r4@, c4, d4);
                }
                return Err(e);
            },
        };
        let ghost c5 = (c4 + (r4@.len() - r5@.len())) as nat;
        let ghost d5 = d4.push(ArgModel::Long(message_count));
        proof {
            lemma_args_step(lay.skip(4), r4@, c4, d4);
            lemma_skip_skip(buf@, c4 as int, r4@.len() - r5@.len());
            assert(lay.skip(4).skip(1) =~= lay.skip(5));
        }
        let r = BasicGetOk { delivery_tag, redelivered, exchange_name, routing_key, message_count };
        proof {
            reveal_with_fuel(unpack_bits, 2);
            assert(lay.skip(5) =~= Seq::<ArgKind>::empty());
            assert(r@ =~= d5);
        }
        Ok((r5, r))
    }
}

/// Arguments of `Basic.GetEmpty`.
#[derive(Debug)]
pub struct BasicGetEmpty {
    pub cluster_id: ShortStr,
}

impl View for BasicGetEmpty {
    type V = Seq<ArgModel>;

    open spec fn view(&self) -> Seq<ArgModel> {
        seq![ArgModel::ShortStr(self.cluster_id@)] + Seq::<ArgModel>::empty()
    }
}

impl BasicGetEmpty {
    /// The wire types of the fields, in order.
    pub open spec fn layout() -> Seq<ArgKind> {
        seq![ArgKind::ShortStr] + Seq::<ArgKind>::empty()
    }

    /// Every field table in the arguments has a body within a `u32` length.
    pub open spec fn encodable(&self) -> bool {
        true
    }

    pub fn encode(&self, out: &mut Vec<u8>)
        requires
            self.encodable(),
        ensures
            final(out)@ == old(out)@ + enc_args(self@),
    {
        proof {
            reveal_with_fuel(enc_args, 2);
        }
        self.cluster_id.encode(out);
        assert(out@ =~= old(out)@ + enc_args(self@));
    }

    #[verifier::spinoff_prover]
    #[verifier::rlimit(100)]
    pub fn decode(buf: &[u8]) -> (r: Result<(&[u8], BasicGetEmpty), FrameDecodeErr>)
        ensures
            agrees(buf@, r, parse_args(BasicGetEmpty::layout(), buf@)),
    {
        let ghost lay = BasicGetEmpty::layout();
        let ghost c0: nat = 0;
        let ghost d0 = Seq::<ArgModel>::empty();
        proof {
            lemma_prepend_start(parse_args(lay, buf@));
            assert(lay.skip(0) =~= lay);
            assert(buf@.skip(0) =~= buf@);
        }
        let r0 = buf;
        proof {
            assert(lay.skip(0)[0] == ArgKind::ShortStr);
            assert(parse_args(lay, buf@) == prepend(parse_args(lay.skip(0), r0@), c0, d0));
            assert(r0@ == buf@.skip(c0 as int));
        }
        let (r1, cluster_id) = match ShortStr::decode(r0) {
            Ok(v) => v,
            Err(e) => {
                proof {
                    lemma_args_step(lay.skip(0), r0@, c0, d0);
                }
                return Err(e);
            },
        };
        let ghost c1 = (c0 + (r0@.len() - r1@.len())) as nat;
        let ghost d1 = d0.push(ArgModel::ShortStr(cluster_id@));
        proof {
            lemma_args_step(lay.skip(0), r0@, c0, d0);
            lemma_skip_skip(buf@, c0 as int, r0@.len() - r1@.len());
            assert(lay.skip(0).skip(1) =~= lay.skip(1));
        }
        let r = BasicGetEmpty { cluster_id };
        proof {
            assert(lay.skip(1) =~= Seq::<ArgKind>::empty());
            assert(r@ =~= d1);
        }
        Ok((r1, r))
    }
}

/// Arguments of `Basic.Ack`.
#[derive(Debug)]
pub struct BasicAck {
    pub delivery_tag: u64,
    pub multiple: bool,
}

impl View for BasicAck {
    type V = Seq<ArgModel>;

    open spec fn view(&self) -> Seq<ArgModel> {
        seq![ArgModel::LongLong(self.delivery_tag)] + (seq![ArgModel::Bits(seq![self.multiple] + Seq::<bool>::empty())] + Seq::<ArgModel>::empty())
    }
}

impl BasicAck {
    /// The wire types of the fields, in order.
    pub open spec fn layout() -> Seq<ArgKind> {
        seq![ArgKind::LongLong] + (seq![ArgKind::Bits(1)] + Seq::<ArgKind>::empty())
    }

    /// Every field table in the arguments has a body within a `u32` length.
    pub open spec fn encodable(&self) -> bool {
        true
    }

    pub fn encode(&self, out: &mut Vec<u8>)
        requires
            self.encodable(),
        ensures
            final(out)@ == old(out)@ + enc_args(self@),
    {
        proof {
            reveal_with_fuel(enc_args, 3);
            reveal_with_fuel(pack_bits, 2);
        }
        put_u64(out, self.delivery_tag);
        put_u8(out, bit(self.multiple));
        assert(out@ =~= old(out)@ + enc_args(self@));
    }

    #[verifier::spinoff_prover]
    #[verifier::rlimit(100)]
    pub fn decode(buf: &[u8]) -> (r: Result<(&[u8], BasicAck), FrameDecodeErr>)
        ensures
            agrees(buf@, r, parse_args(BasicAck::layout(), buf@)),
    {
        let ghost lay = BasicAck::layout();
        let ghost c0: nat = 0;
        let ghost d0 = Seq::<ArgModel>::empty();
        proof {
            lemma_prepend_start(parse_args(lay, buf@));
            assert(lay.skip(0) =~= lay);
            assert(buf@.skip(0) =~= buf@);
        }
        let r0 = buf;
        proof {
            assert(lay.skip(0)[0] == ArgKind::LongLong);
            assert(parse_args(lay, buf@) == prepend(parse_args(lay.skip(0), r0@), c0, d0));
            assert(r0@ == buf@.skip(c0 as int));
        }
        let (r1, delivery_tag) = match decode_u64(r0) {
            Ok(v) => v,
            Err(e) => {
                proof {
                    lemma_args_step(lay.skip(0), r0@, c0, d0);
                }
                return Err(e);
            },
        };
        let ghost c1 = (c0 + (r0@.len() - r1@.len())) as nat;
        let ghost d1 = d0.push(ArgModel::LongLong(delivery_tag));
        proof {
            lemma_args_step(lay.skip(0), r0@, c0, d0);
            lemma_skip_skip(buf@, c0 as int, r0@.len() - r1@.len());
            assert(lay.skip(0).skip(1) =~= lay.skip(1));
        }
        proof {
            assert(lay.skip(1)[0] == ArgKind::Bits(1));
            assert(parse_args(lay, buf@) == prepend(parse_args(lay.skip(1), r1@), c1, d1));
            assert(r1@ == buf@.skip(c1 as int));
        }
        let (r2, bits) = match decode_u8(r1) {
            Ok(v) => v,
            Err(e) => {
                proof {
                    lemma_args_step(lay.skip(1), r1@, c1, d1);
                }
                return Err(e);
            },
        };
        let ghost c2 = (c1 + (r1@.len() - r2@.len())) as nat;
        let ghost d2 = d1.push(ArgModel::Bits(unpack_bits(bits as int, 1)));
        proof {
            lemma_args_step(lay.skip(1), r1@, c1, d1);
            lemma_skip_skip(buf@, c1 as int, r1@.len() - r2@.len());
            assert(lay.skip(1).skip(1) =~= lay.skip(2));
        }
        let multiple = bits % 2 == 1;
        let r = BasicAck { delivery_tag, multiple };
        proof {
            reveal_with_fuel(unpack_bits, 2);
            assert(lay.skip(2) =~= Seq::<ArgKind>::empty());
            assert(r@ =~= d2);
        }
        Ok((r2, r))
    }
}

/// Arguments of `Basic.Reject`.
#[derive(Debug)]
pub struct BasicReject {
    pub delivery_tag: u64,
    pub requeue: bool,
}

impl View for BasicReject {
    type V = Seq<ArgModel>;

    open spec fn view(&self) -> Seq<ArgModel> {
        seq![ArgModel::LongLong(self.delivery_tag)] + (seq![ArgModel::Bits(seq![self.requeue] + Seq::<bool>::empty())] + Seq::<ArgModel>::empty())
    }
}

impl BasicReject {
    /// The wire types of the fields, in order.
    pub open spec fn layout() -> Seq<ArgKind> {
        seq![ArgKind::LongLong] + (seq![ArgKind::Bits(1)] + Seq::<ArgKind>::empty())
    }

    /// Every field table in the arguments has a body within a `u32` length.
    pub open spec fn encodable(&self) -> bool {
        true
    }

    pub fn encode(&self, out: &mut Vec<u8>)
        requires
            self.encodable(),
        ensures
            final(out)@ == old(out)@ + enc_args(self@),
    {
        proof {
            reveal_with_fuel(enc_args, 3);
            reveal_with_fuel(pack_bits, 2);
        }
        put_u64(out, self.delivery_tag);
        put_u8(out, bit(self.requeue));
        assert(out@ =~= old(out)@ + enc_args(self@));
    }

    #[verifier::spinoff_prover]
    #[verifier::rlimit(100)]
    pub fn decode(buf: &[u8]) -> (r: Result<(&[u8], BasicReject), FrameDecodeErr>)
        ensures
            agrees(buf@, r, parse_args(BasicReject::layout(), buf@)),
    {
        let ghost lay = BasicReject::layout();
        let ghost c0: nat = 0;
        let ghost d0 = Seq::<ArgModel>::empty();
        proof {
            lemma_prepend_start(parse_args(lay, buf@));
            assert(lay.skip(0) =~= lay);
            assert(buf@.skip(0) =~= buf@);
        }
        let r0 = buf;
        proof {
            assert(lay.skip(0)[0] == ArgKind::LongLong);
            assert(parse_args(lay, buf@) == prepend(parse_args(lay.skip(0), r0@), c0, d0));
            assert(r0@ == buf@.skip(c0 as int));
        }
        let (r1, delivery_tag) = match decode_u64(r0) {
            Ok(v) => v,
            Err(e) => {
                proof {
                    lemma_args_step(lay.skip(0), r0@, c0, d0);
                }
                return Err(e);
            },
        };
        let ghost c1 = (c0 + (r0@.len() - r1@.len())) as nat;
        let ghost d1 = d0.push(ArgModel::LongLong(delivery_tag));
        proof {
            lemma_args_step(lay.skip(0), r0@, c0, d0);
            lemma_skip_skip(buf@, c0 as int, r0@.len() - r1@.len());
            assert(lay.skip(0).skip(1) =~= lay.skip(1));
        }
        proof {
            assert(lay.skip(1)[0] == ArgKind::Bits(1));
            assert(parse_args(lay, buf@) == prepend(parse_args(lay.skip(1), r1@), c1, d1));
            assert(r1@ == buf@.skip(c1 as int));
        }
        let (r2, bits) = match decode_u8(r1) {
            Ok(v) => v,
            Err(e) => {
                proof {
                    lemma_args_step(lay.skip(1), r1@, c1, d1);
                }
                return Err(e);
            },
        };
        let ghost c2 = (c1 + (r1@.len() - r2@.len())) as nat;
        let ghost d2 = d1.push(ArgModel::Bits(unpack_bits(bits as int, 1)));
        proof {
            lemma_args_step(lay.skip(1), r1@, c1, d1);
            lemma_skip_skip(buf@, c1 as int, r1@.len() - r2@.len());
            assert(lay.skip(1).skip(1) =~= lay.skip(2));
        }
        let requeue = bits % 2 == 1;
        let r = BasicReject { delivery_tag, requeue };
        proof {
            reveal_with_fuel(unpack_bits, 2);
            assert(lay.skip(2) =~= Seq::<ArgKind>::empty());
            assert(r@ =~= d2);
        }
        Ok((r2, r))
    }
}

/// Arguments of `Basic.RecoverAsync`.
#[derive(Debug)]
pub struct BasicRecoverAsync {
    pub requeue: bool,
}

impl View for BasicRecoverAsync {
    type V = Seq<ArgModel>;

    open spec fn view(&self) -> Seq<ArgModel> {
        seq![ArgModel::Bits(seq![self.requeue] + Seq::<bool>::empty())] + Seq::<ArgModel>::empty()
    }
}

impl BasicRecoverAsync {
    /// The wire types of the fields, in order.
    pub open spec fn layout() -> Seq<ArgKind> {
        seq![ArgKind::Bits(1)] + Seq::<ArgKind>::empty()
    }

    /// Every field table in the arguments has a body within a `u32` length.
    pub open spec fn encodable(&self) -> bool {
        true
    }

    pub fn encode(&self, out: &mut Vec<u8>)
        requires
            self.encodable(),
        ensures
            final(out)@ == old(out)@ + enc_args(self@),
    {
        proof {
            reveal_with_fuel(enc_args, 2);
            reveal_with_fuel(pack_bits, 2);
        }
        put_u8(out, bit(self.requeue));
        assert(out@ =~= old(out)@ + enc_args(self@));
    }

    #[verifier::spinoff_prover]
    #[verifier::rlimit(100)]
    pub fn decode(buf: &[u8]) -> (r: Result<(&[u8], BasicRecoverAsync), FrameDecodeErr>)
        ensures
            agrees(buf@, r, parse_args(BasicRecoverAsync::layout(), buf@)),
    {
        let ghost lay = BasicRecoverAsync::layout();
        let ghost c0: nat = 0;
        let ghost d0 = Seq::<ArgModel>::empty();
        proof {
            lemma_prepend_start(parse_args(lay, buf@));
            assert(lay.skip(0) =~= lay);
            assert(buf@.skip(0) =~= buf@);
        }
        let r0 = buf;
        proof {
            assert(lay.skip(0)[0] == ArgKind::Bits(1));
            assert(parse_args(lay, buf@) == prepend(parse_args(lay.skip(0), r0@), c0, d0));
            assert(r0@ == buf@.skip(c0 as int));
        }
        let (r1, bits) = match decode_u8(r0) {
            Ok(v) => v,
            Err(e) => {
                proof {
                    lemma_args_step(lay.skip(0), r0@, c0, d0);
                }
                return Err(e);
            },
        };
        let ghost c1 = (c0 + (r0@.len() - r1@.len())) as nat;
        let ghost d1 = d0.push(ArgModel::Bits(unpack_bits(bits as int, 1)));
        proof {
            lemma_args_step(lay.skip(0), r0@, c0, d0);
            lemma_skip_skip(buf@, c0 as int, r0@.len() - r1@.len());
            assert(lay.skip(0).skip(1) =~= lay.skip(1));
        }
        let requeue = bits % 2 == 1;
        let r = BasicRecoverAsync { requeue };
        proof {
            reveal_with_fuel(unpack_bits, 2);
            assert(lay.skip(1) =~= Seq::<ArgKind>::empty());
            assert(r@ =~= d1);
        }
        Ok((r1, r))
    }
}

/// Arguments of `Basic.Recover`.
#[derive(Debug)]
pub struct BasicRecover {
    pub requeue: bool,
}

impl View for BasicRecover {
    type V = Seq<ArgModel>;

    open spec fn view(&self) -> Seq<ArgModel> {
        seq![ArgModel::Bits(seq![self.requeue] + Seq::<bool>::empty())] + Seq::<ArgModel>::empty()
    }
}

impl BasicRecover {
    /// The wire types of the fields, in order.
    pub open spec fn layout() -> Seq<ArgKind> {
        seq![ArgKind::Bits(1)] + Seq::<ArgKind>::empty()
    }

    /// Every field table in the arguments has a body within a `u32` length.
    pub open spec fn encodable(&self) -> bool {
        true
    }

    pub fn encode(&self, out: &mut Vec<u8>)
        requires
            self.encodable(),
        ensures
            final(out)@ == old(out)@ + enc_args(self@),
    {
        proof {
            reveal_with_fuel(enc_args, 2);
            reveal_with_fuel(pack_bits, 2);
        }
        put_u8(out, bit(self.requeue));
        assert(out@ =~= old(out)@ + enc_args(self@));
    }

    #[verifier::spinoff_prover]
    #[verifier::rlimit(100)]
    pub fn decode(buf: &[u8]) -> (r: Result<(&[u8], BasicRecover), FrameDecodeErr>)
        ensures
            agrees(buf@, r, parse_args(BasicRecover::layout(), buf@)),
    {
        let ghost lay = BasicRecover::layout();
        let ghost c0: nat = 0;
        let ghost d0 = Seq::<ArgModel>::empty();
        proof {
            lemma_prepend_start(parse_args(lay, buf@));
            assert(lay.skip(0) =~= lay);
            assert(buf@.skip(0) =~= buf@);
        }
        let r0 = buf;
        proof {
            assert(lay.skip(0)[0] == ArgKind::Bits(1));
            assert(parse_args(lay, buf@) == prepend(parse_args(lay.skip(0), r0@), c0, d0));
            assert(r0@ == buf@.skip(c0 as int));
        }
        let (r1, bits) = match decode_u8(r0) {
            Ok(v) => v,
            Err(e) => {
                proof {
                    lemma_args_step(lay.skip(0), r0@, c0, d0);
                }
                return Err(e);
            },
        };
        let ghost c1 = (c0 + (r0@.len() - r1@.len())) as nat;
        let ghost d1 = d0.push(ArgModel::Bits(unpack_bits(bits as int, 1)));
        proof {
            lemma_args_step(lay.skip(0), r0@, c0, d0);
            lemma_skip_skip(buf@, c0 as int, r0@.len() - r1@.len());
            assert(lay.skip(0).skip(1) =~= lay.skip(1));
        }
        let requeue = bits % 2 == 1;
        let r = BasicRecover { requeue };
        proof {
            reveal_with_fuel(unpack_bits, 2);
            assert(lay.skip(1) =~= Seq::<ArgKind>::empty());
            assert(r@ =~= d1);
        }
        Ok((r1, r))
    }
}

/// Arguments of `Basic.RecoverOk`.
#[derive(Debug)]
pub struct BasicRecoverOk;

impl View for BasicRecoverOk {
    type V = Seq<ArgModel>;

    open spec fn view(&self) -> Seq<ArgModel> {
        Seq::<ArgModel>::empty()
    }
}

impl BasicRecoverOk {
    /// The wire types of the fields, in order.
    pub open spec fn layout() -> Seq<ArgKind> {
        Seq::<ArgKind>::empty()
    }

    /// Every field table in the arguments has a body within a `u32` length.
    pub open spec fn encodable(&self) -> bool {
        true
    }

    pub fn encode(&self, out: &mut Vec<u8>)
        requires
            self.encodable(),
        ensures
            final(out)@ == old(out)@ + enc_args(self@),
    {
        assert(out@ =~= old(out)@ + enc_args(self@));
    }

    pub fn decode(buf: &[u8]) -> (r: Result<(&[u8], BasicRecoverOk), FrameDecodeErr>)
        ensures
            agrees(buf@, r, parse_args(BasicRecoverOk::layout(), buf@)),
    {
        assert(buf@ =~= buf@.skip(0));
        Ok((buf, BasicRecoverOk))
    }
}

/// Arguments of `Basic.Nack`.
#[derive(Debug)]
pub struct BasicNack {
    pub delivery_tag: u64,
    pub multiple: bool,
    pub requeue: bool,
}

impl View for BasicNack {
    type V = Seq<ArgModel>;

    open spec fn view(&self) -> Seq<ArgModel> {
        seq![ArgModel::LongLong(self.delivery_tag)] + (seq![ArgModel::Bits(seq![self.multiple] + (seq![self.requeue] + Seq::<bool>::empty()))] + Seq::<ArgModel>::empty())
    }
}

impl BasicNack {
    /// The wire types of the fields, in order.
    pub open spec fn layout() -> Seq<ArgKind> {
        seq![ArgKind::LongLong] + (seq![ArgKind::Bits(2)] + Seq::<ArgKind>::empty())
    }

    /// Every field table in the arguments has a body within a `u32` length.
    pub open spec fn encodable(&self) -> bool {
        true
    }

    pub fn encode(&self, out: &mut Vec<u8>)
        requires
            self.encodable(),
        ensures
            final(out)@ == old(out)@ + enc_args(self@),
    {
        proof {
            reveal_with_fuel(enc_args, 3);
            reveal_with_fuel(pack_bits, 3);
        }
        put_u64(out, self.delivery_tag);
        put_u8(out, bit(self.multiple) + 2 * (bit(self.requeue)));
        assert(out@ =~= old(out)@ + enc_args(self@));
    }

    #[verifier::spinoff_prover]
    #[verifier::rlimit(100)]
    pub fn decode(buf: &[u8]) -> (r: Result<(&[u8], BasicNack), FrameDecodeErr>)
        ensures
            agrees(buf@, r, parse_args(BasicNack::layout(), buf@)),
    {
        let ghost lay = BasicNack::layout();
        let ghost c0: nat = 0;
        let ghost d0 = Seq::<ArgModel>::empty();
        proof {
            lemma_prepend_start(parse_args(lay, buf@));
            assert(lay.skip(0) =~= lay);
            assert(buf@.skip(0) =~= buf@);
        }
        let r0 = buf;
        proof {
            assert(lay.skip(0)[0] == ArgKind::LongLong);
            assert(parse_args(lay, buf@) == prepend(parse_args(lay.skip(0), r0@), c0, d0));
            assert(r0@ == buf@.skip(c0 as int));
        }
        let (r1, delivery_tag) = match decode_u64(r0) {
            Ok(v) => v,
            Err(e) => {
                proof {
                    lemma_args_step(lay.skip(0), r0@, c0, d0);
                }
                return Err(e);
            },
        };
        let ghost c1 = (c0 + (r0@.len() - r1@.len())) as nat;
        let ghost d1 = d0.push(ArgModel::LongLong(delivery_tag));
        proof {
            lemma_args_step(lay.skip(0), r0@, c0, d0);
            lemma_skip_skip(buf@, c0 as int, r0@.len() - r1@.len());
            assert(lay.skip(0).skip(1) =~= lay.skip(1));
        }
        proof {
            assert(lay.skip(1)[0] == ArgKind::Bits(2));
            assert(parse_args(lay, buf@) == prepend(parse_args(lay.skip(1), r1@), c1, d1));
            assert(r1@ == buf@.skip(c1 as int));
        }
        let (r2, bits) = match decode_u8(r1) {
            Ok(v) => v,
            Err(e) => {
                proof {
                    lemma_args_step(lay.skip(1), r1@, c1, d1);
                }
                return Err(e);
            },
        };
        let ghost c2 = (c1 + (r1@.len() - r2@.len())) as nat;
        let ghost d2 = d1.push(ArgModel::Bits(unpack_bits(bits as int, 2)));
        proof {
            lemma_args_step(lay.skip(1), r1@, c1, d1);
            lemma_skip_skip(buf@, c1 as int, r1@.len() - r2@.len());
            assert(lay.skip(1).skip(1) =~= lay.skip(2));
        }
        let multiple = bits % 2 == 1;
        let bits_1 = bits / 2;
        let requeue = bits_1 % 2 == 1;
        let r = BasicNack { delivery_tag, multiple, requeue };
        proof {
            reveal_with_fuel(unpack_bits, 3);
            assert(lay.skip(2) =~= Seq::<ArgKind>::empty());
            assert(r@ =~= d2);
        }
        Ok((r2, r))
    }
}

/// Arguments of `Confirm.Select`.
#[derive(Debug)]
pub struct ConfirmSelect {
    pub no_wait: bool,
}

impl View for ConfirmSelect {
    type V = Seq<ArgModel>;

    open spec fn view(&self) -> Seq<ArgModel> {
        seq![ArgModel::Bits(seq![self.no_wait] + Seq::<bool>::empty())] + Seq::<ArgModel>::empty()
    }
}

impl ConfirmSelect {
    /// The wire types of the fields, in order.
    pub open spec fn layout() -> Seq<ArgKind> {
        seq![ArgKind::Bits(1)] + Seq::<ArgKind>::empty()
    }

    /// Every field table in the arguments has a body within a `u32` length.
    pub open spec fn encodable(&self) -> bool {
        true
    }

    pub fn encode(&self, out: &mut Vec<u8>)
        requires
            self.encodable(),
        ensures
            final(out)@ == old(out)@ + enc_args(self@),
    {
        proof {
            reveal_with_fuel(enc_args, 2);
            reveal_with_fuel(pack_bits, 2);
        }
        put_u8(out, bit(self.no_wait));
        assert(out@ =~= old(out)@ + enc_args(self@));
    }

    #[verifier::spinoff_prover]
    #[verifier::rlimit(100)]
    pub fn decode(buf: &[u8]) -> (r: Result<(&[u8], ConfirmSelect), FrameDecodeErr>)
        ensures
            agrees(buf@, r, parse_args(ConfirmSelect::layout(), buf@)),
    {
        let ghost lay = ConfirmSelect::layout();
        let ghost c0: nat = 0;
        let ghost d0 = Seq::<ArgModel>::empty();
        proof {
            lemma_prepend_start(parse_args(lay, buf@));
            assert(lay.skip(0) =~= lay);
            assert(buf@.skip(0) =~= buf@);
        }
        let r0 = buf;
        proof {
            assert(lay.skip(0)[0] == ArgKind::Bits(1));
            assert(parse_args(lay, buf@) == prepend(parse_args(lay.skip(0), r0@), c0, d0));
            assert(r0@ == buf@.skip(c0 as int));
        }
        let (r1, bits) = match decode_u8(r0) {
            Ok(v) => v,
            Err(e) => {
                proof {
                    lemma_args_step(lay.skip(0), r0@, c0, d0);
                }
                return Err(e);
            },
        };
        let ghost c1 = (c0 + (r0@.len() - r1@.len())) as nat;
        let ghost d1 = d0.push(ArgModel::Bits(unpack_bits(bits as int, 1)));
        proof {
            lemma_args_step(lay.skip(0), r0@, c0, d0);
            lemma_skip_skip(buf@, c0 as int, r0@.len() - r1@.len());
            assert(lay.skip(0).skip(1) =~= lay.skip(1));
        }
        let no_wait = bits % 2 == 1;
        let r = ConfirmSelect { no_wait };
        proof {
            reveal_with_fuel(unpack_bits, 2);
            assert(lay.skip(1) =~= Seq::<ArgKind>::empty());
            assert(r@ =~= d1);
        }
        Ok((r1, r))
    }
}

/// Arguments of `Confirm.SelectOk`.
#[derive(Debug)]
pub struct ConfirmSelectOk;

impl View for ConfirmSelectOk {
    type V = Seq<ArgModel>;

    open spec fn view(&self) -> Seq<ArgModel> {
        Seq::<ArgModel>::empty()
    }
}

impl ConfirmSelectOk {
    /// The wire types of the fields, in order.
    pub open spec fn layout() -> Seq<ArgKind> {
        Seq::<ArgKind>::empty()
    }

    /// Every field table in the arguments has a body within a `u32` length.
    pub open spec fn encodable(&self) -> bool {
        true
    }

    pub fn encode(&self, out: &mut Vec<u8>)
        requires
            self.encodable(),
        ensures
            final(out)@ == old(out)@ + enc_args(self@),
    {
        assert(out@ =~= old(out)@ + enc_args(self@));
    }

    pub fn decode(buf: &[u8]) -> (r: Result<(&[u8], ConfirmSelectOk), FrameDecodeErr>)
        ensures
            agrees(buf@, r, parse_args(ConfirmSelectOk::layout(), buf@)),
    {
        assert(buf@ =~= buf@.skip(0));
        Ok((buf, ConfirmSelectOk))
    }
}

/// Arguments of `Tx.Select`.
#[derive(Debug)]
pub struct TxSelect;

impl View for TxSelect {
    type V = Seq<ArgModel>;

    open spec fn view(&self) -> Seq<ArgModel> {
        Seq::<ArgModel>::empty()
    }
}

impl TxSelect {
    /// The wire types of the fields, in order.
    pub open spec fn layout() -> Seq<ArgKind> {
        Seq::<ArgKind>::empty()
    }

    /// Every field table in the arguments has a body within a `u32` length.
    pub open spec fn encodable(&self) -> bool {
        true
    }

    pub fn encode(&self, out: &mut Vec<u8>)
        requires
            self.encodable(),
        ensures
            final(out)@ == old(out)@ + enc_args(self@),
    {
        assert(out@ =~= old(out)@ + enc_args(self@));
    }

    pub fn decode(buf: &[u8]) -> (r: Result<(&[u8], TxSelect), FrameDecodeErr>)
        ensures
            agrees(buf@, r, parse_args(TxSelect::layout(), buf@)),
    {
        assert(buf@ =~= buf@.skip(0));
        Ok((buf, TxSelect))
    }
}

/// Arguments of `Tx.SelectOk`.
#[derive(Debug)]
pub struct TxSelectOk;

impl View for TxSelectOk {
    type V = Seq<ArgModel>;

    open spec fn view(&self) -> Seq<ArgModel> {
        Seq::<ArgModel>::empty()
    }
}

impl TxSelectOk {
    /// The wire types of the fields, in order.
    pub open spec fn layout() -> Seq<ArgKind> {
        Seq::<ArgKind>::empty()
    }

    /// Every field table in the arguments has a body within a `u32` length.
    pub open spec fn encodable(&self) -> bool {
        true
    }

    pub fn encode(&self, out: &mut Vec<u8>)
        requires
            self.encodable(),
        ensures
            final(out)@ == old(out)@ + enc_args(self@),
    {
        assert(out@ =~= old(out)@ + enc_args(self@));
    }

    pub fn decode(buf: &[u8]) -> (r: Result<(&[u8], TxSelectOk), FrameDecodeErr>)
        ensures
            agrees(buf@, r, parse_args(TxSelectOk::layout(), buf@)),
    {
        assert(buf@ =~= buf@.skip(0));
        Ok((buf, TxSelectOk))
    }
}

/// Arguments of `Tx.Commit`.
#[derive(Debug)]
pub struct TxCommit;

impl View for TxCommit {
    type V = Seq<ArgModel>;

    open spec fn view(&self) -> Seq<ArgModel> {
        Seq::<ArgModel>::empty()
    }
}

impl TxCommit {
    /// The wire types of the fields, in order.
    pub open spec fn layout() -> Seq<ArgKind> {
        Seq::<ArgKind>::empty()
    }

    /// Every field table in the arguments has a body within a `u32` length.
    pub open spec fn encodable(&self) -> bool {
        true
    }

    pub fn encode(&self, out: &mut Vec<u8>)
        requires
            self.encodable(),
        ensures
            final(out)@ == old(out)@ + enc_args(self@),
    {
        assert(out@ =~= old(out)@ + enc_args(self@));
    }

    pub fn decode(buf: &[u8]) -> (r: Result<(&[u8], TxCommit), FrameDecodeErr>)
        ensures
            agrees(buf@, r, parse_args(TxCommit::layout(), buf@)),
    {
        assert(buf@ =~= buf@.skip(0));
        Ok((buf, TxCommit))
    }
}

/// Arguments of `Tx.CommitOk`.
#[derive(Debug)]
pub struct TxCommitOk;

impl View for TxCommitOk {
    type V = Seq<ArgModel>;

    open spec fn view(&self) -> Seq<ArgModel> {
        Seq::<ArgModel>::empty()
    }
}

impl TxCommitOk {
    /// The wire types of the fields, in order.
    pub open spec fn layout() -> Seq<ArgKind> {
        Seq::<ArgKind>::empty()
    }

    /// Every field table in the arguments has a body within a `u32` length.
    pub open spec fn encodable(&self) -> bool {
        true
    }

    pub fn encode(&self, out: &mut Vec<u8>)
        requires
            self.encodable(),
        ensures
            final(out)@ == old(out)@ + enc_args(self@),
    {
        assert(out@ =~= old(out)@ + enc_args(self@));
    }

    pub fn decode(buf: &[u8]) -> (r: Result<(&[u8], TxCommitOk), FrameDecodeErr>)
        ensures
            agrees(buf@, r, parse_args(TxCommitOk::layout(), buf@)),
    {
        assert(buf@ =~= buf@.skip(0));
        Ok((buf, TxCommitOk))
    }
}

/// Arguments of `Tx.Rollback`.
#[derive(Debug)]
pub struct TxRollback;

impl View for TxRollback {
    type V = Seq<ArgModel>;

    open spec fn view(&self) -> Seq<ArgModel> {
        Seq::<ArgModel>::empty()
    }
}

impl TxRollback {
    /// The wire types of the fields, in order.
    pub open spec fn layout() -> Seq<ArgKind> {
        Seq::<ArgKind>::empty()
    }

    /// Every field table in the arguments has a body within a `u32` length.
    pub open spec fn encodable(&self) -> bool {
        true
    }

    pub fn encode(&self, out: &mut Vec<u8>)
        requires
            self.encodable(),
        ensures
            final(out)@ == old(out)@ + enc_args(self@),
    {
        assert(out@ =~= old(out)@ + enc_args(self@));
    }

    pub fn decode(buf: &[u8]) -> (r: Result<(&[u8], TxRollback), FrameDecodeErr>)
        ensures
            agrees(buf@, r, parse_args(TxRollback::layout(), buf@)),
    {
        assert(buf@ =~= buf@.skip(0));
        Ok((buf, TxRollback))
    }
}

/// Arguments of `Tx.RollbackOk`.
#[derive(Debug)]
pub struct TxRollbackOk;

impl View for TxRollbackOk {
    type V = Seq<ArgModel>;

    open spec fn view(&self) -> Seq<ArgModel> {
        Seq::<ArgModel>::empty()
    }
}

impl TxRollbackOk {
    /// The wire types of the fields, in order.
    pub open spec fn layout() -> Seq<ArgKind> {
        Seq::<ArgKind>::empty()
    }

    /// Every field table in the arguments has a body within a `u32` length.
    pub open spec fn encodable(&self) -> bool {
        true
    }

    pub fn encode(&self, out: &mut Vec<u8>)
        requires
            self.encodable(),
        ensures
            final(out)@ == old(out)@ + enc_args(self@),
    {
        assert(out@ =~= old(out)@ + enc_args(self@));
    }

    pub fn decode(buf: &[u8]) -> (r: Result<(&[u8], TxRollbackOk), FrameDecodeErr>)
        ensures
            agrees(buf@, r, parse_args(TxRollbackOk::layout(), buf@)),
    {
        assert(buf@ =~= buf@.skip(0));
        Ok((buf, TxRollbackOk))
    }
}

/// The arguments of one method, tagged with the method.
#[derive(Debug)]
pub enum Arguments {
    ConnectionStart(ConnectionStart),
    ConnectionStartOk(ConnectionStartOk),
    ConnectionSecure(ConnectionSecure),
    ConnectionSecureOk(ConnectionSecureOk),
    ConnectionTune(ConnectionTune),
    ConnectionTuneOk(ConnectionTuneOk),
    ConnectionOpen(ConnectionOpen),
    ConnectionOpenOk(ConnectionOpenOk),
    ConnectionClose(ConnectionClose),
    ConnectionCloseOk(ConnectionCloseOk),
    ChannelOpen(ChannelOpen),
    ChannelOpenOk(ChannelOpenOk),
    ChannelFlow(ChannelFlow),
    ChannelFlowOk(ChannelFlowOk),
    ChannelClose(ChannelClose),
    ChannelCloseOk(ChannelCloseOk),
    AccessRequest(AccessRequest),
    AccessRequestOk(AccessRequestOk),
    ExchangeDeclare(ExchangeDeclare),
    ExchangeDeclareOk(ExchangeDeclareOk),
    ExchangeDelete(ExchangeDelete),
    ExchangeDeleteOk(ExchangeDeleteOk),
    ExchangeBind(ExchangeBind),
    ExchangeBindOk(ExchangeBindOk),
    ExchangeUnbind(ExchangeUnbind),
    ExchangeUnbindOk(ExchangeUnbindOk),
    QueueDeclare(QueueDeclare),
    QueueDeclareOk(QueueDeclareOk),
    QueueBind(QueueBind),
    QueueBindOk(QueueBindOk),
    QueuePurge(QueuePurge),
    QueuePurgeOk(QueuePurgeOk),
    QueueDelete(QueueDelete),
    QueueDeleteOk(QueueDeleteOk),
    QueueUnbind(QueueUnbind),
    QueueUnbindOk(QueueUnbindOk),
    BasicQos(BasicQos),
    BasicQosOk(BasicQosOk),
    BasicConsume(BasicConsume),
    BasicConsumeOk(BasicConsumeOk),
    BasicCancel(BasicCancel),
    BasicCancelOk(BasicCancelOk),
    BasicPublish(BasicPublish),
    BasicReturn(BasicReturn),
    BasicDeliver(BasicDeliver),
    BasicGet(BasicGet),
    BasicGetOk(BasicGetOk),
    BasicGetEmpty(BasicGetEmpty),
    BasicAck(BasicAck),
    BasicReject(BasicReject),
    BasicRecoverAsync(BasicRecoverAsync),
    BasicRecover(BasicRecover),
    BasicRecoverOk(BasicRecoverOk),
    BasicNack(BasicNack),
    ConfirmSelect(ConfirmSelect),
    ConfirmSelectOk(ConfirmSelectOk),
    TxSelect(TxSelect),
    TxSelectOk(TxSelectOk),
    TxCommit(TxCommit),
    TxCommitOk(TxCommitOk),
    TxRollback(TxRollback),
    TxRollbackOk(TxRollbackOk),
}

impl View for Arguments {
    type V = Seq<ArgModel>;

    open spec fn view(&self) -> Seq<ArgModel> {
        match self {
            Arguments::ConnectionStart(a) => a@,
            Arguments::ConnectionStartOk(a) => a@,
            Arguments::ConnectionSecure(a) => a@,
            Arguments::ConnectionSecureOk(a) => a@,
            Arguments::ConnectionTune(a) => a@,
            Arguments::ConnectionTuneOk(a) => a@,
            Arguments::ConnectionOpen(a) => a@,
            Arguments::ConnectionOpenOk(a) => a@,
            Arguments::ConnectionClose(a) => a@,
            Arguments::ConnectionCloseOk(a) => a@,
            Arguments::ChannelOpen(a) => a@,
            Arguments::ChannelOpenOk(a) => a@,
            Arguments::ChannelFlow(a) => a@,
            Arguments::ChannelFlowOk(a) => a@,
            Arguments::ChannelClose(a) => a@,
            Arguments::ChannelCloseOk(a) => a@,
            Arguments::AccessRequest(a) => a@,
            Arguments::AccessRequestOk(a) => a@,
            Arguments::ExchangeDeclare(a) => a@,
            Arguments::ExchangeDeclareOk(a) => a@,
            Arguments::ExchangeDelete(a) => a@,
            Arguments::ExchangeDeleteOk(a) => a@,
            Arguments::ExchangeBind(a) => a@,
            Arguments::ExchangeBindOk(a) => a@,
            Arguments::ExchangeUnbind(a) => a@,
            Arguments::ExchangeUnbindOk(a) => a@,
            Arguments::QueueDeclare(a) => a@,
            Arguments::QueueDeclareOk(a) => a@,
            Arguments::QueueBind(a) => a@,
            Arguments::QueueBindOk(a) => a@,
            Arguments::QueuePurge(a) => a@,
            Arguments::QueuePurgeOk(a) => a@,
            Arguments::QueueDelete(a) => a@,
            Arguments::QueueDeleteOk(a) => a@,
            Arguments::QueueUnbind(a) => a@,
            Arguments::QueueUnbindOk(a) => a@,
            Arguments::BasicQos(a) => a@,
            Arguments::BasicQosOk(a) => a@,
            Arguments::BasicConsume(a) => a@,
            Arguments::BasicConsumeOk(a) => a@,
            Arguments::BasicCancel(a) => a@,
            Arguments::BasicCancelOk(a) => a@,
            Arguments::BasicPublish(a) => a@,
            Arguments::BasicReturn(a) => a@,
            Arguments::BasicDeliver(a) => a@,
            Arguments::BasicGet(a) => a@,
            Arguments::BasicGetOk(a) => a@,
            Arguments::BasicGetEmpty(a) => a@,
            Arguments::BasicAck(a) => a@,
            Arguments::BasicReject(a) => a@,
            Arguments::BasicRecoverAsync(a) => a@,
            Arguments::BasicRecover(a) => a@,
            Arguments::BasicRecoverOk(a) => a@,
            Arguments::BasicNack(a) => a@,
            Arguments::ConfirmSelect(a) => a@,
            Arguments::ConfirmSelectOk(a) => a@,
            Arguments::TxSelect(a) => a@,
            Arguments::TxSelectOk(a) => a@,
            Arguments::TxCommit(a) => a@,
            Arguments::TxCommitOk(a) => a@,
            Arguments::TxRollback(a) => a@,
            Arguments::TxRollbackOk(a) => a@,
        }
    }
}

/// The wire layout of the arguments of method `m`.
pub open spec fn method_layout(m: Method) -> Seq<ArgKind> {
    match m {
        Method::Connection(x) => match x {
            ConnectionMethod::Start => ConnectionStart::layout(),
            ConnectionMethod::StartOk => ConnectionStartOk::layout(),
            ConnectionMethod::Secure => ConnectionSecure::layout(),
            ConnectionMethod::SecureOk => ConnectionSecureOk::layout(),
            ConnectionMethod::Tune => ConnectionTune::layout(),
            ConnectionMethod::TuneOk => ConnectionTuneOk::layout(),
            ConnectionMethod::Open => ConnectionOpen::layout(),
            ConnectionMethod::OpenOk => ConnectionOpenOk::layout(),
            ConnectionMethod::Close => ConnectionClose::layout(),
            ConnectionMethod::CloseOk => ConnectionCloseOk::layout(),
            _ => Seq::<ArgKind>::empty(),
        },
        Method::Channel(x) => match x {
            ChannelMethod::Open => ChannelOpen::layout(),
            ChannelMethod::OpenOk => ChannelOpenOk::layout(),
            ChannelMethod::Flow => ChannelFlow::layout(),
            ChannelMethod::FlowOk => ChannelFlowOk::layout(),
            ChannelMethod::Close => ChannelClose::layout(),
            ChannelMethod::CloseOk => ChannelCloseOk::layout(),
            _ => Seq::<ArgKind>::empty(),
        },
        Method::Access(x) => match x {
            AccessMethod::Request => AccessRequest::layout(),
            AccessMethod::RequestOk => AccessRequestOk::layout(),
            _ => Seq::<ArgKind>::empty(),
        },
        Method::Exchange(x) => match x {
            ExchangeMethod::Declare => ExchangeDeclare::layout(),
            ExchangeMethod::DeclareOk => ExchangeDeclareOk::layout(),
            ExchangeMethod::Delete => ExchangeDelete::layout(),
            ExchangeMethod::DeleteOk => ExchangeDeleteOk::layout(),
            ExchangeMethod::Bind => ExchangeBind::layout(),
            ExchangeMethod::BindOk => ExchangeBindOk::layout(),
            ExchangeMethod::Unbind => ExchangeUnbind::layout(),
            ExchangeMethod::UnbindOk => ExchangeUnbindOk::layout(),
            _ => Seq::<ArgKind>::empty(),
        },
        Method::Queue(x) => match x {
            QueueMethod::Declare => QueueDeclare::layout(),
            QueueMethod::DeclareOk => QueueDeclareOk::layout(),
            QueueMethod::Bind => QueueBind::layout(),
            QueueMethod::BindOk => QueueBindOk::layout(),
            QueueMethod::Purge => QueuePurge::layout(),
            QueueMethod::PurgeOk => QueuePurgeOk::layout(),
            QueueMethod::Delete => QueueDelete::layout(),
            QueueMethod::DeleteOk => QueueDeleteOk::layout(),
            QueueMethod::Unbind => QueueUnbind::layout(),
            QueueMethod::UnbindOk => QueueUnbindOk::layout(),
            _ => Seq::<ArgKind>::empty(),
        },
        Method::Basic(x) => match x {
            BasicMethod::Qos => BasicQos::layout(),
            BasicMethod::QosOk => BasicQosOk::layout(),
            BasicMethod::Consume => BasicConsume::layout(),
            BasicMethod::ConsumeOk => BasicConsumeOk::layout(),
            BasicMethod::Cancel => BasicCancel::layout(),
            BasicMethod::CancelOk => BasicCancelOk::layout(),
            BasicMethod::Publish => BasicPublish::layout(),
            BasicMethod::Return => BasicReturn::layout(),
            BasicMethod::Deliver => BasicDeliver::layout(),
            BasicMethod::Get => BasicGet::layout(),
            BasicMethod::GetOk => BasicGetOk::layout(),
            BasicMethod::GetEmpty => BasicGetEmpty::layout(),
            BasicMethod::Ack => BasicAck::layout(),
            BasicMethod::Reject => BasicReject::layout(),
            BasicMethod::RecoverAsync => BasicRecoverAsync::layout(),
            BasicMethod::Recover => BasicRecover::layout(),
            BasicMethod::RecoverOk => BasicRecoverOk::layout(),
            BasicMethod::Nack => BasicNack::layout(),
            _ => Seq::<ArgKind>::empty(),
        },
        Method::Confirm(x) => match x {
            ConfirmMethod::Select => ConfirmSelect::layout(),
            ConfirmMethod::SelectOk => ConfirmSelectOk::layout(),
            _ => Seq::<ArgKind>::empty(),
        },
        Method::Tx(x) => match x {
            TxMethod::Select => TxSelect::layout(),
            TxMethod::SelectOk => TxSelectOk::layout(),
            TxMethod::Commit => TxCommit::layout(),
            TxMethod::CommitOk => TxCommitOk::layout(),
            TxMethod::Rollback => TxRollback::layout(),
            TxMethod::RollbackOk => TxRollbackOk::layout(),
            _ => Seq::<ArgKind>::empty(),
        },
    }
}

/// The outcome of decoding the arguments of method `m` from `buf`.
pub open spec fn args_agree(buf: Seq<u8>, r: Result<(&[u8], Arguments), FrameDecodeErr>, m: Method) -> bool {
    match parse_args(method_layout(m), buf) {
        Ok((n, ms)) => n <= buf.len() && (r matches Ok((rest, a)) && rest@ == buf.skip(n as int) && a@ == ms && a.spec_method() == m),
        Err(e) => r matches Err(e2) && e2 == e,
    }
}

impl Arguments {
    /// The method these arguments belong to.
    pub open spec fn spec_method(&self) -> Method {
        match self {
            Arguments::ConnectionStart(_) => Method::Connection(ConnectionMethod::Start),
            Arguments::ConnectionStartOk(_) => Method::Connection(ConnectionMethod::StartOk),
            Arguments::ConnectionSecure(_) => Method::Connection(ConnectionMethod::Secure),
            Arguments::ConnectionSecureOk(_) => Method::Connection(ConnectionMethod::SecureOk),
            Arguments::ConnectionTune(_) => Method::Connection(ConnectionMethod::Tune),
            Arguments::ConnectionTuneOk(_) => Method::Connection(ConnectionMethod::TuneOk),
            Arguments::ConnectionOpen(_) => Method::Connection(ConnectionMethod::Open),
            Arguments::ConnectionOpenOk(_) => Method::Connection(ConnectionMethod::OpenOk),
            Arguments::ConnectionClose(_) => Method::Connection(ConnectionMethod::Close),
            Arguments::ConnectionCloseOk(_) => Method::Connection(ConnectionMethod::CloseOk),
            Arguments::ChannelOpen(_) => Method::Channel(ChannelMethod::Open),
            Arguments::ChannelOpenOk(_) => Method::Channel(ChannelMethod::OpenOk),
            Arguments::ChannelFlow(_) => Method::Channel(ChannelMethod::Flow),
            Arguments::ChannelFlowOk(_) => Method::Channel(ChannelMethod::FlowOk),
            Arguments::ChannelClose(_) => Method::Channel(ChannelMethod::Close),
            Arguments::ChannelCloseOk(_) => Method::Channel(ChannelMethod::CloseOk),
            Arguments::AccessRequest(_) => Method::Access(AccessMethod::Request),
            Arguments::AccessRequestOk(_) => Method::Access(AccessMethod::RequestOk),
            Arguments::ExchangeDeclare(_) => Method::Exchange(ExchangeMethod::Declare),
            Arguments::ExchangeDeclareOk(_) => Method::Exchange(ExchangeMethod::DeclareOk),
            Arguments::ExchangeDelete(_) => Method::Exchange(ExchangeMethod::Delete),
            Arguments::ExchangeDeleteOk(_) => Method::Exchange(ExchangeMethod::DeleteOk),
            Arguments::ExchangeBind(_) => Method::Exchange(ExchangeMethod::Bind),
            Arguments::ExchangeBindOk(_) => Method::Exchange(ExchangeMethod::BindOk),
            Arguments::ExchangeUnbind(_) => Method::Exchange(ExchangeMethod::Unbind),
            Arguments::ExchangeUnbindOk(_) => Method::Exchange(ExchangeMethod::UnbindOk),
            Arguments::QueueDeclare(_) => Method::Queue(QueueMethod::Declare),
            Arguments::QueueDeclareOk(_) => Method::Queue(QueueMethod::DeclareOk),
            Arguments::QueueBind(_) => Method::Queue(QueueMethod::Bind),
            Arguments::QueueBindOk(_) => Method::Queue(QueueMethod::BindOk),
            Arguments::QueuePurge(_) => Method::Queue(QueueMethod::Purge),
            Arguments::QueuePurgeOk(_) => Method::Queue(QueueMethod::PurgeOk),
            Arguments::QueueDelete(_) => Method::Queue(QueueMethod::Delete),
            Arguments::QueueDeleteOk(_) => Method::Queue(QueueMethod::DeleteOk),
            Arguments::QueueUnbind(_) => Method::Queue(QueueMethod::Unbind),
            Arguments::QueueUnbindOk(_) => Method::Queue(QueueMethod::UnbindOk),
            Arguments::BasicQos(_) => Method::Basic(BasicMethod::Qos),
            Arguments::BasicQosOk(_) => Method::Basic(BasicMethod::QosOk),
            Arguments::BasicConsume(_) => Method::Basic(BasicMethod::Consume),
            Arguments::BasicConsumeOk(_) => Method::Basic(BasicMethod::ConsumeOk),
            Arguments::BasicCancel(_) => Method::Basic(BasicMethod::Cancel),
            Arguments::BasicCancelOk(_) => Method::Basic(BasicMethod::CancelOk),
            Arguments::BasicPublish(_) => Method::Basic(BasicMethod::Publish),
            Arguments::BasicReturn(_) => Method::Basic(BasicMethod::Return),
            Arguments::BasicDeliver(_) => Method::Basic(BasicMethod::Deliver),
            Arguments::BasicGet(_) => Method::Basic(BasicMethod::Get),
            Arguments::BasicGetOk(_) => Method::Basic(BasicMethod::GetOk),
            Arguments::BasicGetEmpty(_) => Method::Basic(BasicMethod::GetEmpty),
            Arguments::BasicAck(_) => Method::Basic(BasicMethod::Ack),
            Arguments::BasicReject(_) => Method::Basic(BasicMethod::Reject),
            Arguments::BasicRecoverAsync(_) => Method::Basic(BasicMethod::RecoverAsync),
            Arguments::BasicRecover(_) => Method::Basic(BasicMethod::Recover),
            Arguments::BasicRecoverOk(_) => Method::Basic(BasicMethod::RecoverOk),
            Arguments::BasicNack(_) => Method::Basic(BasicMethod::Nack),
            Arguments::ConfirmSelect(_) => Method::Confirm(ConfirmMethod::Select),
            Arguments::ConfirmSelectOk(_) => Method::Confirm(ConfirmMethod::SelectOk),
            Arguments::TxSelect(_) => Method::Tx(TxMethod::Select),
            Arguments::TxSelectOk(_) => Method::Tx(TxMethod::SelectOk),
            Arguments::TxCommit(_) => Method::Tx(TxMethod::Commit),
            Arguments::TxCommitOk(_) => Method::Tx(TxMethod::CommitOk),
            Arguments::TxRollback(_) => Method::Tx(TxMethod::Rollback),
            Arguments::TxRollbackOk(_) => Method::Tx(TxMethod::RollbackOk),
        }
    }

    pub open spec fn encodable(&self) -> bool {
        match self {
            Arguments::ConnectionStart(a) => a.encodable(),
            Arguments::ConnectionStartOk(a) => a.encodable(),
            Arguments::ConnectionSecure(a) => a.encodable(),
            Arguments::ConnectionSecureOk(a) => a.encodable(),
            Arguments::ConnectionTune(a) => a.encodable(),
            Arguments::ConnectionTuneOk(a) => a.encodable(),
            Arguments::ConnectionOpen(a) => a.encodable(),
            Arguments::ConnectionOpenOk(a) => a.encodable(),
            Arguments::ConnectionClose(a) => a.encodable(),
            Arguments::ConnectionCloseOk(a) => a.encodable(),
            Arguments::ChannelOpen(a) => a.encodable(),
            Arguments::ChannelOpenOk(a) => a.encodable(),
            Arguments::ChannelFlow(a) => a.encodable(),
            Arguments::ChannelFlowOk(a) => a.encodable(),
            Arguments::ChannelClose(a) => a.encodable(),
            Arguments::ChannelCloseOk(a) => a.encodable(),
            Arguments::AccessRequest(a) => a.encodable(),
            Arguments::AccessRequestOk(a) => a.encodable(),
            Arguments::ExchangeDeclare(a) => a.encodable(),
            Arguments::ExchangeDeclareOk(a) => a.encodable(),
            Arguments::ExchangeDelete(a) => a.encodable(),
            Arguments::ExchangeDeleteOk(a) => a.encodable(),
            Arguments::ExchangeBind(a) => a.encodable(),
            Arguments::ExchangeBindOk(a) => a.encodable(),
            Arguments::ExchangeUnbind(a) => a.encodable(),
            Arguments::ExchangeUnbindOk(a) => a.encodable(),
            Arguments::QueueDeclare(a) => a.encodable(),
            Arguments::QueueDeclareOk(a) => a.encodable(),
            Arguments::QueueBind(a) => a.encodable(),
            Arguments::QueueBindOk(a) => a.encodable(),
            Arguments::QueuePurge(a) => a.encodable(),
            Arguments::QueuePurgeOk(a) => a.encodable(),
            Arguments::QueueDelete(a) => a.encodable(),
            Arguments::QueueDeleteOk(a) => a.encodable(),
            Arguments::QueueUnbind(a) => a.encodable(),
            Arguments::QueueUnbindOk(a) => a.encodable(),
            Arguments::BasicQos(a) => a.encodable(),
            Arguments::BasicQosOk(a) => a.encodable(),
            Arguments::BasicConsume(a) => a.encodable(),
            Arguments::BasicConsumeOk(a) => a.encodable(),
            Arguments::BasicCancel(a) => a.encodable(),
            Arguments::BasicCancelOk(a) => a.encodable(),
            Arguments::BasicPublish(a) => a.encodable(),
            Arguments::BasicReturn(a) => a.encodable(),
            Arguments::BasicDeliver(a) => a.encodable(),
            Arguments::BasicGet(a) => a.encodable(),
            Arguments::BasicGetOk(a) => a.encodable(),
            Arguments::BasicGetEmpty(a) => a.encodable(),
            Arguments::BasicAck(a) => a.encodable(),
            Arguments::BasicReject(a) => a.encodable(),
            Arguments::BasicRecoverAsync(a) => a.encodable(),
            Arguments::BasicRecover(a) => a.encodable(),
            Arguments::BasicRecoverOk(a) => a.encodable(),
            Arguments::BasicNack(a) => a.encodable(),
            Arguments::ConfirmSelect(a) => a.encodable(),
            Arguments::ConfirmSelectOk(a) => a.encodable(),
            Arguments::TxSelect(a) => a.encodable(),
            Arguments::TxSelectOk(a) => a.encodable(),
            Arguments::TxCommit(a) => a.encodable(),
            Arguments::TxCommitOk(a) => a.encodable(),
            Arguments::TxRollback(a) => a.encodable(),
            Arguments::TxRollbackOk(a) => a.encodable(),
        }
    }

    pub fn method(&self) -> (r: Method)
        ensures
            r == self.spec_method(),
    {
        match self {
            Arguments::ConnectionStart(_) => Method::Connection(ConnectionMethod::Start),
            Arguments::ConnectionStartOk(_) => Method::Connection(ConnectionMethod::StartOk),
            Arguments::ConnectionSecure(_) => Method::Connection(ConnectionMethod::Secure),
            Arguments::ConnectionSecureOk(_) => Method::Connection(ConnectionMethod::SecureOk),
            Arguments::ConnectionTune(_) => Method::Connection(ConnectionMethod::Tune),
            Arguments::ConnectionTuneOk(_) => Method::Connection(ConnectionMethod::TuneOk),
            Arguments::ConnectionOpen(_) => Method::Connection(ConnectionMethod::Open),
            Arguments::ConnectionOpenOk(_) => Method::Connection(ConnectionMethod::OpenOk),
            Arguments::ConnectionClose(_) => Method::Connection(ConnectionMethod::Close),
            Arguments::ConnectionCloseOk(_) => Method::Connection(ConnectionMethod::CloseOk),
            Arguments::ChannelOpen(_) => Method::Channel(ChannelMethod::Open),
            Arguments::ChannelOpenOk(_) => Method::Channel(ChannelMethod::OpenOk),
            Arguments::ChannelFlow(_) => Method::Channel(ChannelMethod::Flow),
            Arguments::ChannelFlowOk(_) => Method::Channel(ChannelMethod::FlowOk),
            Arguments::ChannelClose(_) => Method::Channel(ChannelMethod::Close),
            Arguments::ChannelCloseOk(_) => Method::Channel(ChannelMethod::CloseOk),
            Arguments::AccessRequest(_) => Method::Access(AccessMethod::Request),
            Arguments::AccessRequestOk(_) => Method::Access(AccessMethod::RequestOk),
            Arguments::ExchangeDeclare(_) => Method::Exchange(ExchangeMethod::Declare),
            Arguments::ExchangeDeclareOk(_) => Method::Exchange(ExchangeMethod::DeclareOk),
            Arguments::ExchangeDelete(_) => Method::Exchange(ExchangeMethod::Delete),
            Arguments::ExchangeDeleteOk(_) => Method::Exchange(ExchangeMethod::DeleteOk),
            Arguments::ExchangeBind(_) => Method::Exchange(ExchangeMethod::Bind),
            Arguments::ExchangeBindOk(_) => Method::Exchange(ExchangeMethod::BindOk),
            Arguments::ExchangeUnbind(_) => Method::Exchange(ExchangeMethod::Unbind),
            Arguments::ExchangeUnbindOk(_) => Method::Exchange(ExchangeMethod::UnbindOk),
            Arguments::QueueDeclare(_) => Method::Queue(QueueMethod::Declare),
            Arguments::QueueDeclareOk(_) => Method::Queue(QueueMethod::DeclareOk),
            Arguments::QueueBind(_) => Method::Queue(QueueMethod::Bind),
            Arguments::QueueBindOk(_) => Method::Queue(QueueMethod::BindOk),
            Arguments::QueuePurge(_) => Method::Queue(QueueMethod::Purge),
            Arguments::QueuePurgeOk(_) => Method::Queue(QueueMethod::PurgeOk),
            Arguments::QueueDelete(_) => Method::Queue(QueueMethod::Delete),
            Arguments::QueueDeleteOk(_) => Method::Queue(QueueMethod::DeleteOk),
            Arguments::QueueUnbind(_) => Method::Queue(QueueMethod::Unbind),
            Arguments::QueueUnbindOk(_) => Method::Queue(QueueMethod::UnbindOk),
            Arguments::BasicQos(_) => Method::Basic(BasicMethod::Qos),
            Arguments::BasicQosOk(_) => Method::Basic(BasicMethod::QosOk),
            Arguments::BasicConsume(_) => Method::Basic(BasicMethod::Consume),
            Arguments::BasicConsumeOk(_) => Method::Basic(BasicMethod::ConsumeOk),
            Arguments::BasicCancel(_) => Method::Basic(BasicMethod::Cancel),
            Arguments::BasicCancelOk(_) => Method::Basic(BasicMethod::CancelOk),
            Arguments::BasicPublish(_) => Method::Basic(BasicMethod::Publish),
            Arguments::BasicReturn(_) => Method::Basic(BasicMethod::Return),
            Arguments::BasicDeliver(_) => Method::Basic(BasicMethod::Deliver),
            Arguments::BasicGet(_) => Method::Basic(BasicMethod::Get),
            Arguments::BasicGetOk(_) => Method::Basic(BasicMethod::GetOk),
            Arguments::BasicGetEmpty(_) => Method::Basic(BasicMethod::GetEmpty),
            Arguments::BasicAck(_) => Method::Basic(BasicMethod::Ack),
            Arguments::BasicReject(_) => Method::Basic(BasicMethod::Reject),
            Arguments::BasicRecoverAsync(_) => Method::Basic(BasicMethod::RecoverAsync),
            Arguments::BasicRecover(_) => Method::Basic(BasicMethod::Recover),
            Arguments::BasicRecoverOk(_) => Method::Basic(BasicMethod::RecoverOk),
            Arguments::BasicNack(_) => Method::Basic(BasicMethod::Nack),
            Arguments::ConfirmSelect(_) => Method::Confirm(ConfirmMethod::Select),
            Arguments::ConfirmSelectOk(_) => Method::Confirm(ConfirmMethod::SelectOk),
            Arguments::TxSelect(_) => Method::Tx(TxMethod::Select),
            Arguments::TxSelectOk(_) => Method::Tx(TxMethod::SelectOk),
            Arguments::TxCommit(_) => Method::Tx(TxMethod::Commit),
            Arguments::TxCommitOk(_) => Method::Tx(TxMethod::CommitOk),
            Arguments::TxRollback(_) => Method::Tx(TxMethod::Rollback),
            Arguments::TxRollbackOk(_) => Method::Tx(TxMethod::RollbackOk),
        }
    }

    pub fn encode(&self, out: &mut Vec<u8>)
        requires
            self.encodable(),
        ensures
            final(out)@ == old(out)@ + enc_args(self@),
    {
        match self {
            Arguments::ConnectionStart(a) => a.encode(out),
            Arguments::ConnectionStartOk(a) => a.encode(out),
            Arguments::ConnectionSecure(a) => a.encode(out),
            Arguments::ConnectionSecureOk(a) => a.encode(out),
            Arguments::ConnectionTune(a) => a.encode(out),
            Arguments::ConnectionTuneOk(a) => a.encode(out),
            Arguments::ConnectionOpen(a) => a.encode(out),
            Arguments::ConnectionOpenOk(a) => a.encode(out),
            Arguments::ConnectionClose(a) => a.encode(out),
            Arguments::ConnectionCloseOk(a) => a.encode(out),
            Arguments::ChannelOpen(a) => a.encode(out),
            Arguments::ChannelOpenOk(a) => a.encode(out),
            Arguments::ChannelFlow(a) => a.encode(out),
            Arguments::ChannelFlowOk(a) => a.encode(out),
            Arguments::ChannelClose(a) => a.encode(out),
            Arguments::ChannelCloseOk(a) => a.encode(out),
            Arguments::AccessRequest(a) => a.encode(out),
            Arguments::AccessRequestOk(a) => a.encode(out),
            Arguments::ExchangeDeclare(a) => a.encode(out),
            Arguments::ExchangeDeclareOk(a) => a.encode(out),
            Arguments::ExchangeDelete(a) => a.encode(out),
            Arguments::ExchangeDeleteOk(a) => a.encode(out),
            Arguments::ExchangeBind(a) => a.encode(out),
            Arguments::ExchangeBindOk(a) => a.encode(out),
            Arguments::ExchangeUnbind(a) => a.encode(out),
            Arguments::ExchangeUnbindOk(a) => a.encode(out),
            Arguments::QueueDeclare(a) => a.encode(out),
            Arguments::QueueDeclareOk(a) => a.encode(out),
            Arguments::QueueBind(a) => a.encode(out),
            Arguments::QueueBindOk(a) => a.encode(out),
            Arguments::QueuePurge(a) => a.encode(out),
            Arguments::QueuePurgeOk(a) => a.encode(out),
            Arguments::QueueDelete(a) => a.encode(out),
            Arguments::QueueDeleteOk(a) => a.encode(out),
            Arguments::QueueUnbind(a) => a.encode(out),
            Arguments::QueueUnbindOk(a) => a.encode(out),
            Arguments::BasicQos(a) => a.encode(out),
            Arguments::BasicQosOk(a) => a.encode(out),
            Arguments::BasicConsume(a) => a.encode(out),
            Arguments::BasicConsumeOk(a) => a.encode(out),
            Arguments::BasicCancel(a) => a.encode(out),
            Arguments::BasicCancelOk(a) => a.encode(out),
            Arguments::BasicPublish(a) => a.encode(out),
            Arguments::BasicReturn(a) => a.encode(out),
            Arguments::BasicDeliver(a) => a.encode(out),
            Arguments::BasicGet(a) => a.encode(out),
            Arguments::BasicGetOk(a) => a.encode(out),
            Arguments::BasicGetEmpty(a) => a.encode(out),
            Arguments::BasicAck(a) => a.encode(out),
            Arguments::BasicReject(a) => a.encode(out),
            Arguments::BasicRecoverAsync(a) => a.encode(out),
            Arguments::BasicRecover(a) => a.encode(out),
            Arguments::BasicRecoverOk(a) => a.encode(out),
            Arguments::BasicNack(a) => a.encode(out),
            Arguments::ConfirmSelect(a) => a.encode(out),
            Arguments::ConfirmSelectOk(a) => a.encode(out),
            Arguments::TxSelect(a) => a.encode(out),
            Arguments::TxSelectOk(a) => a.encode(out),
            Arguments::TxCommit(a) => a.encode(out),
            Arguments::TxCommitOk(a) => a.encode(out),
            Arguments::TxRollback(a) => a.encode(out),
            Arguments::TxRollbackOk(a) => a.encode(out),
        }
    }

    /// Decodes the arguments of method `m`.
    pub fn decode(m: Method, buf: &[u8]) -> (r: Result<(&[u8], Arguments), FrameDecodeErr>)
        ensures
            !m.spec_is_unknown() ==> args_agree(buf@, r, m),
            m.spec_is_unknown() ==> r == Err::<(&[u8], Arguments), FrameDecodeErr>(FrameDecodeErr::SyntaxError(SyntaxErrorKind::UnknownMethod)),
    {
        match m {
            Method::Connection(x) => decode_connection_args(x, buf),
            Method::Channel(x) => decode_channel_args(x, buf),
            Method::Access(x) => decode_access_args(x, buf),
            Method::Exchange(x) => decode_exchange_args(x, buf),
            Method::Queue(x) => decode_queue_args(x, buf),
            Method::Basic(x) => decode_basic_args(x, buf),
            Method::Confirm(x) => decode_confirm_args(x, buf),
            Method::Tx(x) => decode_tx_args(x, buf),
        }
    }
}

fn decode_connection_args(m: ConnectionMethod, buf: &[u8]) -> (r: Result<(&[u8], Arguments), FrameDecodeErr>)
    ensures
        !(m is Unknown) ==> args_agree(buf@, r, Method::Connection(m)),
        m is Unknown ==> r == Err::<(&[u8], Arguments), FrameDecodeErr>(FrameDecodeErr::SyntaxError(SyntaxErrorKind::UnknownMethod)),
{
    match m {
        ConnectionMethod::Start => match ConnectionStart::decode(buf) {
            Ok((rest, a)) => Ok((rest, Arguments::ConnectionStart(a))),
            Err(e) => Err(e),
        },
        ConnectionMethod::StartOk => match ConnectionStartOk::decode(buf) {
            Ok((rest, a)) => Ok((rest, Arguments::ConnectionStartOk(a))),
            Err(e) => Err(e),
        },
        ConnectionMethod::Secure => match ConnectionSecure::decode(buf) {
            Ok((rest, a)) => Ok((rest, Arguments::ConnectionSecure(a))),
            Err(e) => Err(e),
        },
        ConnectionMethod::SecureOk => match ConnectionSecureOk::decode(buf) {
            Ok((rest, a)) => Ok((rest, Arguments::ConnectionSecureOk(a))),
            Err(e) => Err(e),
        },
        ConnectionMethod::Tune => match ConnectionTune::decode(buf) {
            Ok((rest, a)) => Ok((rest, Arguments::ConnectionTune(a))),
            Err(e) => Err(e),
        },
        ConnectionMethod::TuneOk => match ConnectionTuneOk::decode(buf) {
            Ok((rest, a)) => Ok((rest, Arguments::ConnectionTuneOk(a))),
            Err(e) => Err(e),
        },
        ConnectionMethod::Open => match ConnectionOpen::decode(buf) {
            Ok((rest, a)) => Ok((rest, Arguments::ConnectionOpen(a))),
            Err(e) => Err(e),
        },
        ConnectionMethod::OpenOk => match ConnectionOpenOk::decode(buf) {
            Ok((rest, a)) => Ok((rest, Arguments::ConnectionOpenOk(a))),
            Err(e) => Err(e),
        },
        ConnectionMethod::Close => match ConnectionClose::decode(buf) {
            Ok((rest, a)) => Ok((rest, Arguments::ConnectionClose(a))),
            Err(e) => Err(e),
        },
        ConnectionMethod::CloseOk => match ConnectionCloseOk::decode(buf) {
            Ok((rest, a)) => Ok((rest, Arguments::ConnectionCloseOk(a))),
            Err(e) => Err(e),
        },
        ConnectionMethod::Unknown => Err(FrameDecodeErr::SyntaxError(SyntaxErrorKind::UnknownMethod)),
    }
}

fn decode_channel_args(m: ChannelMethod, buf: &[u8]) -> (r: Result<(&[u8], Arguments), FrameDecodeErr>)
    ensures
        !(m is Unknown) ==> args_agree(buf@, r, Method::Channel(m)),
        m is Unknown ==> r == Err::<(&[u8], Arguments), FrameDecodeErr>(FrameDecodeErr::SyntaxError(SyntaxErrorKind::UnknownMethod)),
{
    match m {
        ChannelMethod::Open => match ChannelOpen::decode(buf) {
            Ok((rest, a)) => Ok((rest, Arguments::ChannelOpen(a))),
            Err(e) => Err(e),
        },
        ChannelMethod::OpenOk => match ChannelOpenOk::decode(buf) {
            Ok((rest, a)) => Ok((rest, Arguments::ChannelOpenOk(a))),
            Err(e) => Err(e),
        },
        ChannelMethod::Flow => match ChannelFlow::decode(buf) {
            Ok((rest, a)) => Ok((rest, Arguments::ChannelFlow(a))),
            Err(e) => Err(e),
        },
        ChannelMethod::FlowOk => match ChannelFlowOk::decode(buf) {
            Ok((rest, a)) => Ok((rest, Arguments::ChannelFlowOk(a))),
            Err(e) => Err(e),
        },
        ChannelMethod::Close => match ChannelClose::decode(buf) {
            Ok((rest, a)) => Ok((rest, Arguments::ChannelClose(a))),
            Err(e) => Err(e),
        },
        ChannelMethod::CloseOk => match ChannelCloseOk::decode(buf) {
            Ok((rest, a)) => Ok((rest, Arguments::ChannelCloseOk(a))),
            Err(e) => Err(e),
        },
        ChannelMethod::Unknown => Err(FrameDecodeErr::SyntaxError(SyntaxErrorKind::UnknownMethod)),
    }
}

fn decode_access_args(m: AccessMethod, buf: &[u8]) -> (r: Result<(&[u8], Arguments), FrameDecodeErr>)
    ensures
        !(m is Unknown) ==> args_agree(buf@, r, Method::Access(m)),
        m is Unknown ==> r == Err::<(&[u8], Arguments), FrameDecodeErr>(FrameDecodeErr::SyntaxError(SyntaxErrorKind::UnknownMethod)),
{
    match m {
        AccessMethod::Request => match AccessRequest::decode(buf) {
            Ok((rest, a)) => Ok((rest, Arguments::AccessRequest(a))),
            Err(e) => Err(e),
        },
        AccessMethod::RequestOk => match AccessRequestOk::decode(buf) {
            Ok((rest, a)) => Ok((rest, Arguments::AccessRequestOk(a))),
            Err(e) => Err(e),
        },
        AccessMethod::Unknown => Err(FrameDecodeErr::SyntaxError(SyntaxErrorKind::UnknownMethod)),
    }
}

fn decode_exchange_args(m: ExchangeMethod, buf: &[u8]) -> (r: Result<(&[u8], Arguments), FrameDecodeErr>)
    ensures
        !(m is Unknown) ==> args_agree(buf@, r, Method::Exchange(m)),
        m is Unknown ==> r == Err::<(&[u8], Arguments), FrameDecodeErr>(FrameDecodeErr::SyntaxError(SyntaxErrorKind::UnknownMethod)),
{
    match m {
        ExchangeMethod::Declare => match ExchangeDeclare::decode(buf) {
            Ok((rest, a)) => Ok((rest, Arguments::ExchangeDeclare(a))),
            Err(e) => Err(e),
        },
        ExchangeMethod::DeclareOk => match ExchangeDeclareOk::decode(buf) {
            Ok((rest, a)) => Ok((rest, Arguments::ExchangeDeclareOk(a))),
            Err(e) => Err(e),
        },
        ExchangeMethod::Delete => match ExchangeDelete::decode(buf) {
            Ok((rest, a)) => Ok((rest, Arguments::ExchangeDelete(a))),
            Err(e) => Err(e),
        },
        ExchangeMethod::DeleteOk => match ExchangeDeleteOk::decode(buf) {
            Ok((rest, a)) => Ok((rest, Arguments::ExchangeDeleteOk(a))),
            Err(e) => Err(e),
        },
        ExchangeMethod::Bind => match ExchangeBind::decode(buf) {
            Ok((rest, a)) => Ok((rest, Arguments::ExchangeBind(a))),
            Err(e) => Err(e),
        },
        ExchangeMethod::BindOk => match ExchangeBindOk::decode(buf) {
            Ok((rest, a)) => Ok((rest, Arguments::ExchangeBindOk(a))),
            Err(e) => Err(e),
        },
        ExchangeMethod::Unbind => match ExchangeUnbind::decode(buf) {
            Ok((rest, a)) => Ok((rest, Arguments::ExchangeUnbind(a))),
            Err(e) => Err(e),
        },
        ExchangeMethod::UnbindOk => match ExchangeUnbindOk::decode(buf) {
            Ok((rest, a)) => Ok((rest, Arguments::ExchangeUnbindOk(a))),
            Err(e) => Err(e),
        },
        ExchangeMethod::Unknown => Err(FrameDecodeErr::SyntaxError(SyntaxErrorKind::UnknownMethod)),
    }
}

fn decode_queue_args(m: QueueMethod, buf: &[u8]) -> (r: Result<(&[u8], Arguments), FrameDecodeErr>)
    ensures
        !(m is Unknown) ==> args_agree(buf@, r, Method::Queue(m)),
        m is Unknown ==> r == Err::<(&[u8], Arguments), FrameDecodeErr>(FrameDecodeErr::SyntaxError(SyntaxErrorKind::UnknownMethod)),
{
    match m {
        QueueMethod::Declare => match QueueDeclare::decode(buf) {
            Ok((rest, a)) => Ok((rest, Arguments::QueueDeclare(a))),
            Err(e) => Err(e),
        },
        QueueMethod::DeclareOk => match QueueDeclareOk::decode(buf) {
            Ok((rest, a)) => Ok((rest, Arguments::QueueDeclareOk(a))),
            Err(e) => Err(e),
        },
        QueueMethod::Bind => match QueueBind::decode(buf) {
            Ok((rest, a)) => Ok((rest, Arguments::QueueBind(a))),
            Err(e) => Err(e),
        },
        QueueMethod::BindOk => match QueueBindOk::decode(buf) {
            Ok((rest, a)) => Ok((rest, Arguments::QueueBindOk(a))),
            Err(e) => Err(e),
        },
        QueueMethod::Purge => match QueuePurge::decode(buf) {
            Ok((rest, a)) => Ok((rest, Arguments::QueuePurge(a))),
            Err(e) => Err(e),
        },
        QueueMethod::PurgeOk => match QueuePurgeOk::decode(buf) {
            Ok((rest, a)) => Ok((rest, Arguments::QueuePurgeOk(a))),
            Err(e) => Err(e),
        },
        QueueMethod::Delete => match QueueDelete::decode(buf) {
            Ok((rest, a)) => Ok((rest, Arguments::QueueDelete(a))),
            Err(e) => Err(e),
        },
        QueueMethod::DeleteOk => match QueueDeleteOk::decode(buf) {
            Ok((rest, a)) => Ok((rest, Arguments::QueueDeleteOk(a))),
            Err(e) => Err(e),
        },
        QueueMethod::Unbind => match QueueUnbind::decode(buf) {
            Ok((rest, a)) => Ok((rest, Arguments::QueueUnbind(a))),
            Err(e) => Err(e),
        },
        QueueMethod::UnbindOk => match QueueUnbindOk::decode(buf) {
            Ok((rest, a)) => Ok((rest, Arguments::QueueUnbindOk(a))),
            Err(e) => Err(e),
        },
        QueueMethod::Unknown => Err(FrameDecodeErr::SyntaxError(SyntaxErrorKind::UnknownMethod)),
    }
}

fn decode_basic_args(m: BasicMethod, buf: &[u8]) -> (r: Result<(&[u8], Arguments), FrameDecodeErr>)
    ensures
        !(m is Unknown) ==> args_agree(buf@, r, Method::Basic(m)),
        m is Unknown ==> r == Err::<(&[u8], Arguments), FrameDecodeErr>(FrameDecodeErr::SyntaxError(SyntaxErrorKind::UnknownMethod)),
{
    match m {
        BasicMethod::Qos => match BasicQos::decode(buf) {
            Ok((rest, a)) => Ok((rest, Arguments::BasicQos(a))),
            Err(e) => Err(e),
        },
        BasicMethod::QosOk => match BasicQosOk::decode(buf) {
            Ok((rest, a)) => Ok((rest, Arguments::BasicQosOk(a))),
            Err(e) => Err(e),
        },
        BasicMethod::Consume => match BasicConsume::decode(buf) {
            Ok((rest, a)) => Ok((rest, Arguments::BasicConsume(a))),
            Err(e) => Err(e),
        },
        BasicMethod::ConsumeOk => match BasicConsumeOk::decode(buf) {
            Ok((rest, a)) => Ok((rest, Arguments::BasicConsumeOk(a))),
            Err(e) => Err(e),
        },
        BasicMethod::Cancel => match BasicCancel::decode(buf) {
            Ok((rest, a)) => Ok((rest, Arguments::BasicCancel(a))),
            Err(e) => Err(e),
        },
        BasicMethod::CancelOk => match BasicCancelOk::decode(buf) {
            Ok((rest, a)) => Ok((rest, Arguments::BasicCancelOk(a))),
            Err(e) => Err(e),
        },
        BasicMethod::Publish => match BasicPublish::decode(buf) {
            Ok((rest, a)) => Ok((rest, Arguments::BasicPublish(a))),
            Err(e) => Err(e),
        },
        BasicMethod::Return => match BasicReturn::decode(buf) {
            Ok((rest, a)) => Ok((rest, Arguments::BasicReturn(a))),
            Err(e) => Err(e),
        },
        BasicMethod::Deliver => match BasicDeliver::decode(buf) {
            Ok((rest, a)) => Ok((rest, Arguments::BasicDeliver(a))),
            Err(e) => Err(e),
        },
        BasicMethod::Get => match BasicGet::decode(buf) {
            Ok((rest, a)) => Ok((rest, Arguments::BasicGet(a))),
            Err(e) => Err(e),
        },
        BasicMethod::GetOk => match BasicGetOk::decode(buf) {
            Ok((rest, a)) => Ok((rest, Arguments::BasicGetOk(a))),
            Err(e) => Err(e),
        },
        BasicMethod::GetEmpty => match BasicGetEmpty::decode(buf) {
            Ok((rest, a)) => Ok((rest, Arguments::BasicGetEmpty(a))),
            Err(e) => Err(e),
        },
        BasicMethod::Ack => match BasicAck::decode(buf) {
            Ok((rest, a)) => Ok((rest, Arguments::BasicAck(a))),
            Err(e) => Err(e),
        },
        BasicMethod::Reject => match BasicReject::decode(buf) {
            Ok((rest, a)) => Ok((rest, Arguments::BasicReject(a))),
            Err(e) => Err(e),
        },
        BasicMethod::RecoverAsync => match BasicRecoverAsync::decode(buf) {
            Ok((rest, a)) => Ok((rest, Arguments::BasicRecoverAsync(a))),
            Err(e) => Err(e),
        },
        BasicMethod::Recover => match BasicRecover::decode(buf) {
            Ok((rest, a)) => Ok((rest, Arguments::BasicRecover(a))),
            Err(e) => Err(e),
        },
        BasicMethod::RecoverOk => match BasicRecoverOk::decode(buf) {
            Ok((rest, a)) => Ok((rest, Arguments::BasicRecoverOk(a))),
            Err(e) => Err(e),
        },
        BasicMethod::Nack => match BasicNack::decode(buf) {
            Ok((rest, a)) => Ok((rest, Arguments::BasicNack(a))),
            Err(e) => Err(e),
        },
        BasicMethod::Unknown => Err(FrameDecodeErr::SyntaxError(SyntaxErrorKind::UnknownMethod)),
    }
}

fn decode_confirm_args(m: ConfirmMethod, buf: &[u8]) -> (r: Result<(&[u8], Arguments), FrameDecodeErr>)
    ensures
        !(m is Unknown) ==> args_agree(buf@, r, Method::Confirm(m)),
        m is Unknown ==> r == Err::<(&[u8], Arguments), FrameDecodeErr>(FrameDecodeErr::SyntaxError(SyntaxErrorKind::UnknownMethod)),
{
    match m {
        ConfirmMethod::Select => match ConfirmSelect::decode(buf) {
            Ok((rest, a)) => Ok((rest, Arguments::ConfirmSelect(a))),
            Err(e) => Err(e),
        },
        ConfirmMethod::SelectOk => match ConfirmSelectOk::decode(buf) {
            Ok((rest, a)) => Ok((rest, Arguments::ConfirmSelectOk(a))),
            Err(e) => Err(e),
        },
        ConfirmMethod::Unknown => Err(FrameDecodeErr::SyntaxError(SyntaxErrorKind::UnknownMethod)),
    }
}

fn decode_tx_args(m: TxMethod, buf: &[u8]) -> (r: Result<(&[u8], Arguments), FrameDecodeErr>)
    ensures
        !(m is Unknown) ==> args_agree(buf@, r, Method::Tx(m)),
        m is Unknown ==> r == Err::<(&[u8], Arguments), FrameDecodeErr>(FrameDecodeErr::SyntaxError(SyntaxErrorKind::UnknownMethod)),
{
    match m {
        TxMethod::Select => match TxSelect::decode(buf) {
            Ok((rest, a)) => Ok((rest, Arguments::TxSelect(a))),
            Err(e) => Err(e),
        },
        TxMethod::SelectOk => match TxSelectOk::decode(buf) {
            Ok((rest, a)) => Ok((rest, Arguments::TxSelectOk(a))),
            Err(e) => Err(e),
        },
        TxMethod::Commit => match TxCommit::decode(buf) {
            Ok((rest, a)) => Ok((rest, Arguments::TxCommit(a))),
            Err(e) => Err(e),
        },
        TxMethod::CommitOk => match TxCommitOk::decode(buf) {
            Ok((rest, a)) => Ok((rest, Arguments::TxCommitOk(a))),
            Err(e) => Err(e),
        },
        TxMethod::Rollback => match TxRollback::decode(buf) {
            Ok((rest, a)) => Ok((rest, Arguments::TxRollback(a))),
            Err(e) => Err(e),
        },
        TxMethod::RollbackOk => match TxRollbackOk::decode(buf) {
            Ok((rest, a)) => Ok((rest, Arguments::TxRollbackOk(a))),
            Err(e) => Err(e),
        },
        TxMethod::Unknown => Err(FrameDecodeErr::SyntaxError(SyntaxErrorKind::UnknownMethod)),
    }
}

impl Default for ConnectionStart {
    /// Version 0-0, no server properties, no mechanisms or locales.
    fn default() -> (r: ConnectionStart)
        ensures
            r.version_major == 0,
            r.version_minor == 0,
            r.server_properties@.len() == 0,
            r.mechanisms@.len() == 0,
            r.locales@.len() == 0,
    {
        ConnectionStart {
            version_major: 0,
            version_minor: 0,
            server_properties: FieldTable::new(),
            mechanisms: LongStr::new(),
            locales: LongStr::new(),
        }
    }
}

impl ConnectionStart {
    pub fn version_major(&self) -> (r: u8)
        ensures
            r == self.version_major,
    {
        self.version_major
    }

    pub fn version_minor(&self) -> (r: u8)
        ensures
            r == self.version_minor,
    {
        self.version_minor
    }

    pub fn set_version_major(&mut self, v: u8)
        ensures
            final(self).version_major == v,
            final(self).version_minor == old(self).version_minor,
    {
        self.version_major = v;
    }

    pub fn set_version_minor(&mut self, v: u8)
        ensures
            final(self).version_minor == v,
            final(self).version_major == old(self).version_major,
    {
        self.version_minor = v;
    }
}

} // verus!
