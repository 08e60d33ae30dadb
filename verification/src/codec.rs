//! Framing codec: turns byte buffers into `(request id, message)` pairs and
//! back.
//!
//! A frame is `magic (2) | type tag (1) | body length (8, big-endian) |
//! request id (8, big-endian) | body`. Decoding is non-destructive until a
//! full frame is confirmed available: it reports "need more data" without
//! consuming anything when the buffer holds less than a complete frame.

use vstd::prelude::*;
use vstd::slice::{slice_subrange, slice_to_vec};

use crate::bufio::{buf_bytes, buf_put_slice, buf_split_to, buf_to_vec};
use crate::msg::{
    tag_of, Block, BlockHash, BlockHeader, BlockV, GetPeerAddrs, Hand, HandV, Headers, Locator,
    MsgBody, MsgBodyV, MsgType, PeerAddrs, PeerError, PeerErrorV, Shake, ShakeV, SockAddr,
    Transaction, BLOCK_HEADER_LEN, HASH_LEN, MAX_BODY_LEN, SOCK_ADDR_LEN,
};
use crate::ser::{
    be16_bytes, be16_val, be32_bytes, be32_val, be64_bytes, be64_val, lemma_be16_round_trip,
    lemma_be32_round_trip, lemma_be64_round_trip, push_u16_be, push_u32_be, push_u64_be,
    read_u16_be, read_u32_be, read_u64_be,
};

verus! {

/// First magic byte opening every frame.
pub const MAGIC_0: u8 = 0x1e;

/// Second magic byte opening every frame.
pub const MAGIC_1: u8 = 0xc5;

/// Bytes preceding the body: the header (magic, type tag, body length)
/// plus the 8-byte request id.
pub const FRAME_PREFIX_LEN: usize = 19;

/// Decode failures. A short buffer is not a failure: it is reported as
/// "need more data" instead.
#[derive(Clone, Copy, PartialEq, Eq, Structural, Debug)]
pub enum CodecError {
    /// The frame does not open with the two magic bytes.
    BadMagic,
    /// The type tag byte is outside the known enumeration.
    UnknownType,
    /// The declared body length exceeds `MAX_BODY_LEN`.
    TooLarge,
    /// The body of a recognized type does not parse as its shape.
    BadBody,
}

/// The byte a type tag is encoded as.
pub open spec fn tag_byte(t: MsgType) -> u8 {
    match t {
        MsgType::Error => 0,
        MsgType::Hand => 1,
        MsgType::Shake => 2,
        MsgType::Ping => 3,
        MsgType::Pong => 4,
        MsgType::GetPeerAddrs => 5,
        MsgType::PeerAddrs => 6,
        MsgType::GetHeaders => 7,
        MsgType::Headers => 8,
        MsgType::GetBlock => 9,
        MsgType::Block => 10,
        MsgType::Transaction => 11,
    }
}

/// The type tag a byte decodes to, if any.
pub open spec fn tag_of_byte(b: u8) -> Option<MsgType> {
    if b == 0 {
        Some(MsgType::Error)
    } else if b == 1 {
        Some(MsgType::Hand)
    } else if b == 2 {
        Some(MsgType::Shake)
    } else if b == 3 {
        Some(MsgType::Ping)
    } else if b == 4 {
        Some(MsgType::Pong)
    } else if b == 5 {
        Some(MsgType::GetPeerAddrs)
    } else if b == 6 {
        Some(MsgType::PeerAddrs)
    } else if b == 7 {
        Some(MsgType::GetHeaders)
    } else if b == 8 {
        Some(MsgType::Headers)
    } else if b == 9 {
        Some(MsgType::GetBlock)
    } else if b == 10 {
        Some(MsgType::Block)
    } else if b == 11 {
        Some(MsgType::Transaction)
    } else {
        None
    }
}

/// The six bytes of a socket address: IPv4 address then port, big-endian.
pub open spec fn sock_addr_bytes(a: SockAddr) -> Seq<u8> {
    be32_bytes(a.ip) + be16_bytes(a.port)
}

/// The concatenation of a sequence of byte strings.
pub open spec fn concat_bytes(s: Seq<Seq<u8>>) -> Seq<u8>
    decreases s.len(),
{
    if s.len() == 0 {
        Seq::empty()
    } else {
        s[0] + concat_bytes(s.drop_first())
    }
}

/// Splits a byte string into consecutive chunks of `k` bytes.
pub open spec fn chunk_seq(b: Seq<u8>, k: nat) -> Seq<Seq<u8>>
    decreases b.len(),
{
    if k == 0 || b.len() < k {
        Seq::empty()
    } else {
        seq![b.take(k as int)] + chunk_seq(b.skip(k as int), k)
    }
}

/// The serialized body of a message.
pub open spec fn body_bytes(m: MsgBodyV) -> Seq<u8> {
    match m {
        MsgBodyV::PeerError(e) => be32_bytes(e.code) + e.message,
        MsgBodyV::Hand(h) => be32_bytes(h.version) + be32_bytes(h.capabilities) + sock_addr_bytes(
            h.sender_addr,
        ) + be64_bytes(h.total_difficulty) + h.user_agent,
        MsgBodyV::Shake(s) => be32_bytes(s.version) + be32_bytes(s.capabilities) + be64_bytes(
            s.total_difficulty,
        ) + s.user_agent,
        MsgBodyV::Ping => Seq::empty(),
        MsgBodyV::Pong => Seq::empty(),
        MsgBodyV::GetPeerAddrs(g) => be32_bytes(g.capabilities),
        MsgBodyV::PeerAddrs(ps) => concat_bytes(ps.map(|i: int, a: SockAddr| sock_addr_bytes(a))),
        MsgBodyV::GetHeaders(hs) => concat_bytes(hs),
        MsgBodyV::Headers(hs) => concat_bytes(hs),
        MsgBodyV::GetBlock(h) => h,
        MsgBodyV::Block(b) => b.hash + b.payload,
        MsgBodyV::Transaction(t) => t,
    }
}

/// Structural well-formedness of a message: every fixed-size unit it carries
/// has its exact length, and its body fits under `MAX_BODY_LEN`.
pub open spec fn msg_wf(m: MsgBodyV) -> bool {
    match m {
        MsgBodyV::PeerError(e) => 4 + e.message.len() <= MAX_BODY_LEN,
        MsgBodyV::Hand(h) => 22 + h.user_agent.len() <= MAX_BODY_LEN,
        MsgBodyV::Shake(s) => 16 + s.user_agent.len() <= MAX_BODY_LEN,
        MsgBodyV::Ping => true,
        MsgBodyV::Pong => true,
        MsgBodyV::GetPeerAddrs(_) => true,
        MsgBodyV::PeerAddrs(ps) => ps.len() * SOCK_ADDR_LEN <= MAX_BODY_LEN,
        MsgBodyV::GetHeaders(hs) => (forall|i: int|
            0 <= i < hs.len() ==> #[trigger] hs[i].len() == HASH_LEN) && hs.len() * HASH_LEN
            <= MAX_BODY_LEN,
        MsgBodyV::Headers(hs) => (forall|i: int|
            0 <= i < hs.len() ==> #[trigger] hs[i].len() == BLOCK_HEADER_LEN) && hs.len()
            * BLOCK_HEADER_LEN <= MAX_BODY_LEN,
        MsgBodyV::GetBlock(h) => h.len() == HASH_LEN,
        MsgBodyV::Block(b) => b.hash.len() == HASH_LEN && HASH_LEN + b.payload.len()
            <= MAX_BODY_LEN,
        MsgBodyV::Transaction(t) => t.len() <= MAX_BODY_LEN,
    }
}

/// The full wire frame of a message under a request id.
pub open spec fn frame_bytes(id: u64, m: MsgBodyV) -> Seq<u8> {
    seq![MAGIC_0, MAGIC_1, tag_byte(tag_of(m))] + be64_bytes(body_bytes(m).len() as u64)
        + be64_bytes(id) + body_bytes(m)
}

/// The body a recognized tag's bytes parse to, if they have its shape.
pub open spec fn parse_body(t: MsgType, b: Seq<u8>) -> Option<MsgBodyV> {
    match t {
        MsgType::Error => if b.len() >= 4 {
            Some(
                MsgBodyV::PeerError(
                    PeerErrorV { code: be32_val(b.subrange(0, 4)), message: b.skip(4) },
                ),
            )
        } else {
            None
        },
        MsgType::Hand => if b.len() >= 22 {
            Some(
                MsgBodyV::Hand(
                    HandV {
                        version: be32_val(b.subrange(0, 4)),
                        capabilities: be32_val(b.subrange(4, 8)),
                        sender_addr: SockAddr {
                            ip: be32_val(b.subrange(8, 12)),
                            port: be16_val(b.subrange(12, 14)),
                        },
                        total_difficulty: be64_val(b.subrange(14, 22)),
                        user_agent: b.skip(22),
                    },
                ),
            )
        } else {
            None
        },
        MsgType::Shake => if b.len() >= 16 {
            Some(
                MsgBodyV::Shake(
                    ShakeV {
                        version: be32_val(b.subrange(0, 4)),
                        capabilities: be32_val(b.subrange(4, 8)),
                        total_difficulty: be64_val(b.subrange(8, 16)),
                        user_agent: b.skip(16),
                    },
                ),
            )
        } else {
            None
        },
        MsgType::Ping => if b.len() == 0 {
            Some(MsgBodyV::Ping)
        } else {
            None
        },
        MsgType::Pong => if b.len() == 0 {
            Some(MsgBodyV::Pong)
        } else {
            None
        },
        MsgType::GetPeerAddrs => if b.len() == 4 {
            Some(MsgBodyV::GetPeerAddrs(GetPeerAddrs { capabilities: be32_val(b) }))
        } else {
            None
        },
        MsgType::PeerAddrs => if b.len() % (SOCK_ADDR_LEN as nat) == 0 {
            Some(
                MsgBodyV::PeerAddrs(
                    chunk_seq(b, SOCK_ADDR_LEN as nat).map(
                        |i: int, c: Seq<u8>|
                            SockAddr { ip: be32_val(c.subrange(0, 4)), port: be16_val(c.skip(4)) },
                    ),
                ),
            )
        } else {
            None
        },
        MsgType::GetHeaders => if b.len() % (HASH_LEN as nat) == 0 {
            Some(MsgBodyV::GetHeaders(chunk_seq(b, HASH_LEN as nat)))
        } else {
            None
        },
        MsgType::Headers => if b.len() % (BLOCK_HEADER_LEN as nat) == 0 {
            Some(MsgBodyV::Headers(chunk_seq(b, BLOCK_HEADER_LEN as nat)))
        } else {
            None
        },
        MsgType::GetBlock => if b.len() == HASH_LEN {
            Some(MsgBodyV::GetBlock(b))
        } else {
            None
        },
        MsgType::Block => if b.len() >= HASH_LEN {
            Some(
                MsgBodyV::Block(BlockV { hash: b.take(HASH_LEN as int), payload: b.skip(HASH_LEN as int) }),
            )
        } else {
            None
        },
        MsgType::Transaction => Some(MsgBodyV::Transaction(b)),
    }
}

/// What one decoding step yields on a buffer: not enough bytes yet, one
/// complete frame (and how many bytes it occupied), or a hard failure.
#[verifier::ext_equal]
pub enum DecodeStep {
    NeedMore,
    Frame { id: u64, msg: MsgBodyV, used: int },
    Fail { err: CodecError },
}

/// The decoding function of the wire format, stated over byte sequences.
/// The executable decoders are proved to agree with it.
pub open spec fn spec_decode(b: Seq<u8>) -> DecodeStep {
    if b.len() < FRAME_PREFIX_LEN {
        DecodeStep::NeedMore
    } else if b[0] != MAGIC_0 || b[1] != MAGIC_1 {
        DecodeStep::Fail { err: CodecError::BadMagic }
    } else if tag_of_byte(b[2]) is None {
        DecodeStep::Fail { err: CodecError::UnknownType }
    } else {
        let t = tag_of_byte(b[2]).unwrap();
        let blen = be64_val(b.subrange(3, 11));
        if blen > MAX_BODY_LEN {
            DecodeStep::Fail { err: CodecError::TooLarge }
        } else if b.len() < FRAME_PREFIX_LEN + blen {
            DecodeStep::NeedMore
        } else {
            let id = be64_val(b.subrange(11, FRAME_PREFIX_LEN as int));
            match parse_body(
                t,
                b.subrange(FRAME_PREFIX_LEN as int, FRAME_PREFIX_LEN + blen),
            ) {
                Some(m) => DecodeStep::Frame { id, msg: m, used: FRAME_PREFIX_LEN + blen },
                None => DecodeStep::Fail { err: CodecError::BadBody },
            }
        }
    }
}

/// Encoding then decoding a tag byte yields the tag.
pub proof fn lemma_tag_byte_round_trip(t: MsgType)
    ensures
        tag_of_byte(tag_byte(t)) == Some(t),
{
}

/// A concatenation of `k`-byte strings is `k` times as long.
pub proof fn lemma_concat_len(s: Seq<Seq<u8>>, k: nat)
    requires
        forall|i: int| 0 <= i < s.len() ==> #[trigger] s[i].len() == k,
    ensures
        concat_bytes(s).len() == k * s.len(),
    decreases s.len(),
{
    if s.len() == 0 {
        assert(k * 0 == 0) by (nonlinear_arith);
    } else {
        lemma_concat_len(s.drop_first(), k);
        assert(k * s.len() == k + k * (s.len() - 1)) by (nonlinear_arith);
    }
}

/// Splitting a concatenation of `k`-byte strings back into `k`-byte chunks
/// yields the original strings.
pub proof fn lemma_chunk_concat(s: Seq<Seq<u8>>, k: nat)
    requires
        k > 0,
        forall|i: int| 0 <= i < s.len() ==> #[trigger] s[i].len() == k,
    ensures
        chunk_seq(concat_bytes(s), k) == s,
    decreases s.len(),
{
    lemma_concat_len(s, k);
    let c = concat_bytes(s);
    if s.len() == 0 {
        assert(chunk_seq(c, k) =~= s);
    } else {
        assert(k * s.len() >= k * 1) by (nonlinear_arith)
            requires s.len() >= 1 && k > 0;
        assert(c =~= s[0] + concat_bytes(s.drop_first()));
        assert(c.take(k as int) =~= s[0]);
        assert(c.skip(k as int) =~= concat_bytes(s.drop_first()));
        lemma_chunk_concat(s.drop_first(), k);
        assert(chunk_seq(c, k) =~= seq![c.take(k as int)] + chunk_seq(c.skip(k as int), k));
        assert(chunk_seq(c, k) =~~= s);
    }
}

/// Parsing the serialized body of a well-formed message yields the message.
pub proof fn lemma_parse_body_round_trip(m: MsgBodyV)
    requires
        msg_wf(m),
    ensures
        parse_body(tag_of(m), body_bytes(m)) == Some(m),
{
    let b = body_bytes(m);
    match m {
        MsgBodyV::PeerError(e) => {
            assert(b.subrange(0, 4) =~= be32_bytes(e.code));
            lemma_be32_round_trip(e.code);
            assert(b.skip(4) =~= e.message);
            assert(parse_body(tag_of(m), b) =~~= Some(m));
        },
        MsgBodyV::Hand(h) => {
            assert(b.subrange(0, 4) =~= be32_bytes(h.version));
            assert(b.subrange(4, 8) =~= be32_bytes(h.capabilities));
            assert(b.subrange(8, 12) =~= be32_bytes(h.sender_addr.ip));
            assert(b.subrange(12, 14) =~= be16_bytes(h.sender_addr.port));
            assert(b.subrange(14, 22) =~= be64_bytes(h.total_difficulty));
            assert(b.skip(22) =~= h.user_agent);
            lemma_be32_round_trip(h.version);
            lemma_be32_round_trip(h.capabilities);
            lemma_be32_round_trip(h.sender_addr.ip);
            lemma_be16_round_trip(h.sender_addr.port);
            lemma_be64_round_trip(h.total_difficulty);
            assert(parse_body(tag_of(m), b) =~~= Some(m));
        },
        MsgBodyV::Shake(s) => {
            assert(b.subrange(0, 4) =~= be32_bytes(s.version));
            assert(b.subrange(4, 8) =~= be32_bytes(s.capabilities));
            assert(b.subrange(8, 16) =~= be64_bytes(s.total_difficulty));
            assert(b.skip(16) =~= s.user_agent);
            lemma_be32_round_trip(s.version);
            lemma_be32_round_trip(s.capabilities);
            lemma_be64_round_trip(s.total_difficulty);
            assert(parse_body(tag_of(m), b) =~~= Some(m));
        },
        MsgBodyV::Ping => {},
        MsgBodyV::Pong => {},
        MsgBodyV::GetPeerAddrs(g) => {
            lemma_be32_round_trip(g.capabilities);
        },
        MsgBodyV::PeerAddrs(ps) => {
            let encoded = ps.map(|i: int, a: SockAddr| sock_addr_bytes(a));
            assert(forall|i: int|
                0 <= i < encoded.len() ==> #[trigger] encoded[i].len() == SOCK_ADDR_LEN);
            lemma_concat_len(encoded, SOCK_ADDR_LEN as nat);
            assert(b.len() == SOCK_ADDR_LEN * ps.len());
            assert((SOCK_ADDR_LEN * ps.len()) % (SOCK_ADDR_LEN as int) == 0) by (nonlinear_arith);
            lemma_chunk_concat(encoded, SOCK_ADDR_LEN as nat);
            let parsed = chunk_seq(b, SOCK_ADDR_LEN as nat).map(
                |i: int, c: Seq<u8>|
                    SockAddr { ip: be32_val(c.subrange(0, 4)), port: be16_val(c.skip(4)) },
            );
            assert forall|i: int| 0 <= i < ps.len() implies #[trigger] parsed[i] == ps[i] by {
                let c = encoded[i];
                assert(c == sock_addr_bytes(ps[i]));
                assert(c.subrange(0, 4) =~= be32_bytes(ps[i].ip));
                assert(c.skip(4) =~= be16_bytes(ps[i].port));
                lemma_be32_round_trip(ps[i].ip);
                lemma_be16_round_trip(ps[i].port);
            }
            assert(parsed =~= ps);
            assert(parse_body(tag_of(m), b) =~~= Some(m));
        },
        MsgBodyV::GetHeaders(hs) => {
            lemma_concat_len(hs, HASH_LEN as nat);
            assert((HASH_LEN * hs.len()) % (HASH_LEN as int) == 0) by (nonlinear_arith);
            lemma_chunk_concat(hs, HASH_LEN as nat);
            assert(parse_body(tag_of(m), b) =~~= Some(m));
        },
        MsgBodyV::Headers(hs) => {
            lemma_concat_len(hs, BLOCK_HEADER_LEN as nat);
            assert((BLOCK_HEADER_LEN * hs.len()) % (BLOCK_HEADER_LEN as int) == 0)
                by (nonlinear_arith);
            lemma_chunk_concat(hs, BLOCK_HEADER_LEN as nat);
            assert(parse_body(tag_of(m), b) =~~= Some(m));
        },
        MsgBodyV::GetBlock(h) => {},
        MsgBodyV::Block(bl) => {
            assert(b.take(HASH_LEN as int) =~= bl.hash);
            assert(b.skip(HASH_LEN as int) =~= bl.payload);
            assert(parse_body(tag_of(m), b) =~~= Some(m));
        },
        MsgBodyV::Transaction(t) => {},
    }
}

/// The serialized body of a well-formed message fits under `MAX_BODY_LEN`.
pub proof fn lemma_body_len_bound(m: MsgBodyV)
    requires
        msg_wf(m),
    ensures
        body_bytes(m).len() <= MAX_BODY_LEN,
{
    match m {
        MsgBodyV::PeerAddrs(ps) => {
            let encoded = ps.map(|i: int, a: SockAddr| sock_addr_bytes(a));
            lemma_concat_len(encoded, SOCK_ADDR_LEN as nat);
        },
        MsgBodyV::GetHeaders(hs) => {
            lemma_concat_len(hs, HASH_LEN as nat);
        },
        MsgBodyV::Headers(hs) => {
            lemma_concat_len(hs, BLOCK_HEADER_LEN as nat);
        },
        _ => {},
    }
}

/// Decoding the frame of a well-formed message, with any bytes following it,
/// yields exactly that message, its id, and the frame's length.
pub proof fn lemma_frame_round_trip(id: u64, m: MsgBodyV, rest: Seq<u8>)
    requires
        msg_wf(m),
    ensures
        spec_decode(frame_bytes(id, m) + rest) == (DecodeStep::Frame {
            id,
            msg: m,
            used: FRAME_PREFIX_LEN + body_bytes(m).len(),
        }),
{
    let body = body_bytes(m);
    lemma_body_len_bound(m);
    let f = frame_bytes(id, m) + rest;
    assert(f.len() >= FRAME_PREFIX_LEN + body.len());
    assert(f[0] == MAGIC_0 && f[1] == MAGIC_1 && f[2] == tag_byte(tag_of(m)));
    lemma_tag_byte_round_trip(tag_of(m));
    assert(f.subrange(3, 11) =~= be64_bytes(body.len() as u64));
    lemma_be64_round_trip(body.len() as u64);
    assert(f.subrange(11, FRAME_PREFIX_LEN as int) =~= be64_bytes(id));
    lemma_be64_round_trip(id);
    assert(f.subrange(FRAME_PREFIX_LEN as int, FRAME_PREFIX_LEN + body.len()) =~= body);
    lemma_parse_body_round_trip(m);
    assert(spec_decode(f) =~~= DecodeStep::Frame {
        id,
        msg: m,
        used: FRAME_PREFIX_LEN + body.len() as int,
    });
}

/// Any strict prefix of a well-formed message's frame decodes to "need more
/// data": never to a failure, and never to a frame before the last byte.
pub proof fn lemma_frame_prefix_needs_more(id: u64, m: MsgBodyV, n: int)
    requires
        msg_wf(m),
        0 <= n < frame_bytes(id, m).len(),
    ensures
        spec_decode(frame_bytes(id, m).take(n)) == DecodeStep::NeedMore,
{
    let body = body_bytes(m);
    lemma_body_len_bound(m);
    let f = frame_bytes(id, m);
    let p = f.take(n);
    if n < FRAME_PREFIX_LEN {
        assert(spec_decode(p) == DecodeStep::NeedMore);
    } else {
        assert(p[0] == MAGIC_0 && p[1] == MAGIC_1 && p[2] == tag_byte(tag_of(m)));
        lemma_tag_byte_round_trip(tag_of(m));
        assert(p.subrange(3, 11) =~= be64_bytes(body.len() as u64));
        lemma_be64_round_trip(body.len() as u64);
        assert(p.len() < FRAME_PREFIX_LEN + body.len());
        assert(spec_decode(p) == DecodeStep::NeedMore);
    }
}

/// Concatenation distributes over appending one element at the end.
pub proof fn lemma_concat_snoc(s: Seq<Seq<u8>>, x: Seq<u8>)
    ensures
        concat_bytes(s.push(x)) == concat_bytes(s) + x,
    decreases s.len(),
{
    if s.len() == 0 {
        assert(s.push(x)[0] == x);
        assert(s.push(x).drop_first() =~= Seq::<Seq<u8>>::empty());
        assert(concat_bytes(s.push(x).drop_first()) =~= Seq::<u8>::empty());
        assert(concat_bytes(s.push(x)) =~= concat_bytes(s) + x);
    } else {
        assert(s.push(x).drop_first() =~= s.drop_first().push(x));
        lemma_concat_snoc(s.drop_first(), x);
        assert(concat_bytes(s.push(x)) =~= concat_bytes(s) + x);
    }
}

/// The `j`-th chunk of a byte string is its `j`-th `k`-byte subrange.
pub proof fn lemma_chunk_index(b: Seq<u8>, k: nat, j: int)
    requires
        k > 0,
        0 <= j,
        (j + 1) * k <= b.len(),
    ensures
        chunk_seq(b, k).len() > j,
        chunk_seq(b, k)[j] == b.subrange(j * k, j * k + k),
    decreases j,
{
    assert(j * k >= 0) by (nonlinear_arith)
        requires j >= 0 && k >= 0;
    assert((j + 1) * k == j * k + k) by (nonlinear_arith);
    assert(b.len() >= k);
    assert(chunk_seq(b, k) == seq![b.take(k as int)] + chunk_seq(b.skip(k as int), k));
    if j == 0 {
        assert(j * k == 0) by (nonlinear_arith)
            requires j == 0;
        assert(b.subrange(0, k as int) =~= b.take(k as int));
        assert(chunk_seq(b, k)[0] == b.take(k as int));
        assert(chunk_seq(b, k)[j] == b.subrange(j * k, j * k + k));
    } else {
        let rest = b.skip(k as int);
        lemma_chunk_index(rest, k, j - 1);
        assert((j - 1) * k == j * k - k) by (nonlinear_arith);
        assert((j - 1) * k + k == j * k);
        assert(chunk_seq(rest, k)[j - 1] == rest.subrange(j * k - k, j * k));
        assert(rest.subrange(j * k - k, j * k) =~= b.subrange(j * k, j * k + k));
        assert(chunk_seq(b, k)[j] == chunk_seq(rest, k)[j - 1]);
        assert(chunk_seq(b, k)[j] == b.subrange(j * k, j * k + k));
    }
}

/// A byte string whose length is a multiple of `k` splits into exactly
/// `len / k` chunks.
pub proof fn lemma_chunk_len(b: Seq<u8>, k: nat)
    requires
        k > 0,
        b.len() % k == 0,
    ensures
        chunk_seq(b, k).len() == b.len() / k,
    decreases b.len(),
{
    if b.len() < k {
        assert(b.len() == 0) by (nonlinear_arith)
            requires b.len() % k == 0 && b.len() < k && k > 0;
    } else {
        let rest = b.skip(k as int);
        assert(rest.len() % k == 0 && rest.len() / k == b.len() / k - 1)
            by (nonlinear_arith)
            requires b.len() % k == 0 && b.len() >= k && rest.len() == b.len() - k && k > 0;
        lemma_chunk_len(rest, k);
    }
}

/// Appends a byte slice to a vector.
pub fn push_bytes(out: &mut Vec<u8>, src: &[u8])
    ensures
        final(out)@ == old(out)@ + src@,
{
    let n = src.len();
    let mut i: usize = 0;
    while i < n
        invariant
            i <= n,
            n == src@.len(),
            out@ == old(out)@ + src@.take(i as int),
        decreases n - i,
    {
        out.push(src[i]);
        assert(out@ =~= old(out)@ + src@.take(i + 1));
        i = i + 1;
    }
    assert(out@ =~= old(out)@ + src@);
}

/// Whether a message is structurally well-formed; agrees with `msg_wf`.
#[verifier::loop_isolation(false)]
pub fn check_wf(msg: &MsgBody) -> (r: bool)
    ensures
        r == msg_wf(msg@),
{
    match msg {
        MsgBody::PeerError(e) => e.message.len() as u64 <= MAX_BODY_LEN - 4,
        MsgBody::Hand(h) => h.user_agent.len() as u64 <= MAX_BODY_LEN - 22,
        MsgBody::Shake(s) => s.user_agent.len() as u64 <= MAX_BODY_LEN - 16,
        MsgBody::Ping => true,
        MsgBody::Pong => true,
        MsgBody::GetPeerAddrs(_) => true,
        MsgBody::PeerAddrs(p) => p.peers.len() as u64 <= MAX_BODY_LEN / 6,
        MsgBody::GetHeaders(l) => {
            if l.hashes.len() as u64 > MAX_BODY_LEN / 32 {
                return false;
            }
            let n = l.hashes.len();
            let mut i: usize = 0;
            while i < n
                invariant
                    i <= n,
                    n == l.hashes@.len(),
                    forall|j: int| 0 <= j < i ==> #[trigger] l.hashes@[j]@.len() == HASH_LEN,
                decreases n - i,
            {
                if l.hashes[i].bytes.len() != HASH_LEN {
                    proof {
                        assert(l@[i as int] == l.hashes@[i as int]@);
                    }
                    return false;
                }
                i = i + 1;
            }
            proof {
                assert forall|jj: int| 0 <= jj < l@.len() implies #[trigger] l@[jj].len()
                    == HASH_LEN by {
                    assert(l@[jj] == l.hashes@[jj]@);
                }
            }
            true
        },
        MsgBody::Headers(h) => {
            if h.headers.len() as u64 > MAX_BODY_LEN / 64 {
                return false;
            }
            let n = h.headers.len();
            let mut i: usize = 0;
            while i < n
                invariant
                    i <= n,
                    n == h.headers@.len(),
                    forall|j: int| 0 <= j < i ==> #[trigger] h.headers@[j]@.len()
                        == BLOCK_HEADER_LEN,
                decreases n - i,
            {
                if h.headers[i].data.len() != BLOCK_HEADER_LEN {
                    proof {
                        assert(h@[i as int] == h.headers@[i as int]@);
                    }
                    return false;
                }
                i = i + 1;
            }
            proof {
                assert forall|jj: int| 0 <= jj < h@.len() implies #[trigger] h@[jj].len()
                    == BLOCK_HEADER_LEN by {
                    assert(h@[jj] == h.headers@[jj]@);
                }
            }
            true
        },
        MsgBody::GetBlock(h) => h.bytes.len() == HASH_LEN,
        MsgBody::Block(b) => b.hash.bytes.len() == HASH_LEN && b.payload.len() as u64
            <= MAX_BODY_LEN - 32,
        MsgBody::Transaction(t) => t.payload.len() as u64 <= MAX_BODY_LEN,
    }
}

/// Appends the serialized body of a well-formed message to `out`.
#[verifier::loop_isolation(false)]
fn append_body(out: &mut Vec<u8>, msg: &MsgBody)
    requires
        msg_wf(msg@),
    ensures
        final(out)@ == old(out)@ + body_bytes(msg@),
{
    match msg {
        MsgBody::PeerError(e) => {
            push_u32_be(out, e.code);
            push_bytes(out, e.message.as_slice());
            assert(out@ =~= old(out)@ + body_bytes(msg@));
        },
        MsgBody::Hand(h) => {
            push_u32_be(out, h.version);
            push_u32_be(out, h.capabilities);
            push_u32_be(out, h.sender_addr.ip);
            push_u16_be(out, h.sender_addr.port);
            push_u64_be(out, h.total_difficulty);
            push_bytes(out, h.user_agent.as_slice());
            assert(out@ =~= old(out)@ + body_bytes(msg@));
        },
        MsgBody::Shake(s) => {
            push_u32_be(out, s.version);
            push_u32_be(out, s.capabilities);
            push_u64_be(out, s.total_difficulty);
            push_bytes(out, s.user_agent.as_slice());
            assert(out@ =~= old(out)@ + body_bytes(msg@));
        },
        MsgBody::Ping => {
            assert(out@ =~= old(out)@ + body_bytes(msg@));
        },
        MsgBody::Pong => {
            assert(out@ =~= old(out)@ + body_bytes(msg@));
        },
        MsgBody::GetPeerAddrs(g) => {
            push_u32_be(out, g.capabilities);
            assert(out@ =~= old(out)@ + body_bytes(msg@));
        },
        MsgBody::PeerAddrs(p) => {
            let ghost encoded = p.peers@.map(|i: int, a: SockAddr| sock_addr_bytes(a));
            let n = p.peers.len();
            let mut i: usize = 0;
            while i < n
                invariant
                    i <= n,
                    n == p.peers@.len(),
                    encoded == p.peers@.map(|i: int, a: SockAddr| sock_addr_bytes(a)),
                    out@ == old(out)@ + concat_bytes(encoded.take(i as int)),
                decreases n - i,
            {
                let a = p.peers[i];
                push_u32_be(out, a.ip);
                push_u16_be(out, a.port);
                proof {
                    assert(encoded.take(i + 1) =~= encoded.take(i as int).push(encoded[i as int]));
                    lemma_concat_snoc(encoded.take(i as int), encoded[i as int]);
                    assert(out@ =~= old(out)@ + concat_bytes(encoded.take(i + 1)));
                }
                i = i + 1;
            }
            assert(encoded.take(n as int) =~= encoded);
        },
        MsgBody::GetHeaders(l) => {
            let ghost hs = l@;
            let n = l.hashes.len();
            let mut i: usize = 0;
            while i < n
                invariant
                    i <= n,
                    n == l.hashes@.len(),
                    hs == l@,
                    out@ == old(out)@ + concat_bytes(hs.take(i as int)),
                decreases n - i,
            {
                push_bytes(out, l.hashes[i].bytes.as_slice());
                proof {
                    assert(hs.take(i + 1) =~= hs.take(i as int).push(hs[i as int]));
                    lemma_concat_snoc(hs.take(i as int), hs[i as int]);
                    assert(out@ =~= old(out)@ + concat_bytes(hs.take(i + 1)));
                }
                i = i + 1;
            }
            assert(hs.take(n as int) =~= hs);
        },
        MsgBody::Headers(h) => {
            let ghost hs = h@;
            let n = h.headers.len();
            let mut i: usize = 0;
            while i < n
                invariant
                    i <= n,
                    n == h.headers@.len(),
                    hs == h@,
                    out@ == old(out)@ + concat_bytes(hs.take(i as int)),
                decreases n - i,
            {
                push_bytes(out, h.headers[i].data.as_slice());
                proof {
                    assert(hs.take(i + 1) =~= hs.take(i as int).push(hs[i as int]));
                    lemma_concat_snoc(hs.take(i as int), hs[i as int]);
                    assert(out@ =~= old(out)@ + concat_bytes(hs.take(i + 1)));
                }
                i = i + 1;
            }
            assert(hs.take(n as int) =~= hs);
        },
        MsgBody::GetBlock(h) => {
            push_bytes(out, h.bytes.as_slice());
        },
        MsgBody::Block(b) => {
            push_bytes(out, b.hash.bytes.as_slice());
            push_bytes(out, b.payload.as_slice());
            assert(out@ =~= old(out)@ + body_bytes(msg@));
        },
        MsgBody::Transaction(t) => {
            push_bytes(out, t.payload.as_slice());
        },
    }
}

/// The byte a type tag is encoded as.
pub fn msg_type_byte(t: MsgType) -> (r: u8)
    ensures
        r == tag_byte(t),
{
    match t {
        MsgType::Error => 0,
        MsgType::Hand => 1,
        MsgType::Shake => 2,
        MsgType::Ping => 3,
        MsgType::Pong => 4,
        MsgType::GetPeerAddrs => 5,
        MsgType::PeerAddrs => 6,
        MsgType::GetHeaders => 7,
        MsgType::Headers => 8,
        MsgType::GetBlock => 9,
        MsgType::Block => 10,
        MsgType::Transaction => 11,
    }
}

/// The type tag a byte decodes to, if any.
pub fn msg_type_of_byte(b: u8) -> (r: Option<MsgType>)
    ensures
        r == tag_of_byte(b),
{
    if b == 0 {
        Some(MsgType::Error)
    } else if b == 1 {
        Some(MsgType::Hand)
    } else if b == 2 {
        Some(MsgType::Shake)
    } else if b == 3 {
        Some(MsgType::Ping)
    } else if b == 4 {
        Some(MsgType::Pong)
    } else if b == 5 {
        Some(MsgType::GetPeerAddrs)
    } else if b == 6 {
        Some(MsgType::PeerAddrs)
    } else if b == 7 {
        Some(MsgType::GetHeaders)
    } else if b == 8 {
        Some(MsgType::Headers)
    } else if b == 9 {
        Some(MsgType::GetBlock)
    } else if b == 10 {
        Some(MsgType::Block)
    } else if b == 11 {
        Some(MsgType::Transaction)
    } else {
        None
    }
}

/// Serializes a message under a request id into one complete wire frame.
/// Succeeds exactly on well-formed messages.
pub fn encode_frame(id: u64, msg: &MsgBody) -> (r: Result<Vec<u8>, CodecError>)
    ensures
        msg_wf(msg@) ==> (r matches Ok(v) && v@ == frame_bytes(id, msg@)),
        !msg_wf(msg@) ==> r == Err::<Vec<u8>, CodecError>(CodecError::BadBody),
{
    if !check_wf(msg) {
        return Err(CodecError::BadBody);
    }
    let mut body: Vec<u8> = Vec::new();
    append_body(&mut body, msg);
    proof {
        lemma_body_len_bound(msg@);
    }
    let mut out: Vec<u8> = Vec::new();
    out.push(MAGIC_0);
    out.push(MAGIC_1);
    out.push(msg_type_byte(msg.msg_type()));
    push_u64_be(&mut out, body.len() as u64);
    push_u64_be(&mut out, id);
    push_bytes(&mut out, body.as_slice());
    assert(out@ =~= frame_bytes(id, msg@));
    Ok(out)
}

/// Whether an executable decode result agrees with what `spec_decode` says.
pub open spec fn decode_matches(
    r: Result<Option<(u64, MsgBody, usize)>, CodecError>,
    s: DecodeStep,
) -> bool {
    match s {
        DecodeStep::NeedMore => r matches Ok(None),
        DecodeStep::Frame { id, msg, used } => r matches Ok(Some(f)) && f.0 == id && f.1@ == msg
            && f.2 == used,
        DecodeStep::Fail { err } => r == Err::<Option<(u64, MsgBody, usize)>, CodecError>(err),
    }
}

/// Parses the body of a recognized tag; agrees with `parse_body`.
#[verifier::loop_isolation(false)]
fn parse_body_exec(t: MsgType, body: &[u8]) -> (r: Result<MsgBody, CodecError>)
    ensures
        parse_body(t, body@) matches Some(m) ==> (r matches Ok(x) && x@ == m),
        parse_body(t, body@) is None ==> r == Err::<MsgBody, CodecError>(CodecError::BadBody),
{
    match t {
        MsgType::Error => {
            if body.len() < 4 {
                return Err(CodecError::BadBody);
            }
            let code = read_u32_be(body, 0);
            let message = slice_to_vec(slice_subrange(body, 4, body.len()));
            proof {
                assert(body@.subrange(4, body@.len() as int) =~= body@.skip(4));
            }
            Ok(MsgBody::PeerError(PeerError { code, message }))
        },
        MsgType::Hand => {
            if body.len() < 22 {
                return Err(CodecError::BadBody);
            }
            let version = read_u32_be(body, 0);
            let capabilities = read_u32_be(body, 4);
            let ip = read_u32_be(body, 8);
            let port = read_u16_be(body, 12);
            let total_difficulty = read_u64_be(body, 14);
            let user_agent = slice_to_vec(slice_subrange(body, 22, body.len()));
            proof {
                assert(body@.subrange(22, body@.len() as int) =~= body@.skip(22));
            }
            Ok(
                MsgBody::Hand(
                    Hand {
                        version,
                        capabilities,
                        sender_addr: SockAddr { ip, port },
                        total_difficulty,
                        user_agent,
                    },
                ),
            )
        },
        MsgType::Shake => {
            if body.len() < 16 {
                return Err(CodecError::BadBody);
            }
            let version = read_u32_be(body, 0);
            let capabilities = read_u32_be(body, 4);
            let total_difficulty = read_u64_be(body, 8);
            let user_agent = slice_to_vec(slice_subrange(body, 16, body.len()));
            proof {
                assert(body@.subrange(16, body@.len() as int) =~= body@.skip(16));
            }
            Ok(MsgBody::Shake(Shake { version, capabilities, total_difficulty, user_agent }))
        },
        MsgType::Ping => {
            if body.len() != 0 {
                return Err(CodecError::BadBody);
            }
            Ok(MsgBody::Ping)
        },
        MsgType::Pong => {
            if body.len() != 0 {
                return Err(CodecError::BadBody);
            }
            Ok(MsgBody::Pong)
        },
        MsgType::GetPeerAddrs => {
            if body.len() != 4 {
                return Err(CodecError::BadBody);
            }
            let capabilities = read_u32_be(body, 0);
            proof {
                assert(body@.subrange(0, 4) =~= body@);
            }
            Ok(MsgBody::GetPeerAddrs(GetPeerAddrs { capabilities }))
        },
        MsgType::PeerAddrs => {
            if body.len() % SOCK_ADDR_LEN != 0 {
                return Err(CodecError::BadBody);
            }
            let ghost cs = chunk_seq(body@, SOCK_ADDR_LEN as nat);
            let ghost target = cs.map(
                |i: int, c: Seq<u8>|
                    SockAddr { ip: be32_val(c.subrange(0, 4)), port: be16_val(c.skip(4)) },
            );
            let n = body.len() / SOCK_ADDR_LEN;
            proof {
                lemma_chunk_len(body@, SOCK_ADDR_LEN as nat);
                vstd::arithmetic::div_mod::lemma_fundamental_div_mod(
                    body@.len() as int,
                    SOCK_ADDR_LEN as int,
                );
            }
            let mut peers: Vec<SockAddr> = Vec::new();
            let mut j: usize = 0;
            while j < n
                invariant
                    j <= n,
                    n == body@.len() / (SOCK_ADDR_LEN as nat),
                    body@.len() % (SOCK_ADDR_LEN as nat) == 0,
                    n * SOCK_ADDR_LEN == body@.len(),
                    cs == chunk_seq(body@, SOCK_ADDR_LEN as nat),
                    target == cs.map(
                        |i: int, c: Seq<u8>|
                            SockAddr { ip: be32_val(c.subrange(0, 4)), port: be16_val(c.skip(4)) },
                    ),
                    peers@ == target.take(j as int),
                decreases n - j,
            {
                proof {
                    vstd::arithmetic::mul::lemma_mul_inequality(
                        j as int + 1,
                        n as int,
                        SOCK_ADDR_LEN as int,
                    );
                    assert((j as int + 1) * (SOCK_ADDR_LEN as int) == j * SOCK_ADDR_LEN
                        + SOCK_ADDR_LEN) by (nonlinear_arith);
                    lemma_chunk_index(body@, SOCK_ADDR_LEN as nat, j as int);
                }
                let base = j * SOCK_ADDR_LEN;
                let ip = read_u32_be(body, base);
                let port = read_u16_be(body, base + 4);
                proof {
                    let c = cs[j as int];
                    assert(c.subrange(0, 4) =~= body@.subrange(
                        j * SOCK_ADDR_LEN,
                        j * SOCK_ADDR_LEN + 4,
                    ));
                    assert(c.skip(4) =~= body@.subrange(
                        j * SOCK_ADDR_LEN + 4,
                        j * SOCK_ADDR_LEN + 6,
                    ));
                    assert(peers@.push(SockAddr { ip, port }) =~= target.take(j + 1));
                }
                peers.push(SockAddr { ip, port });
                j = j + 1;
            }
            assert(peers@ =~= target);
            Ok(MsgBody::PeerAddrs(PeerAddrs { peers }))
        },
        MsgType::GetHeaders => {
            if body.len() % HASH_LEN != 0 {
                return Err(CodecError::BadBody);
            }
            let ghost cs = chunk_seq(body@, HASH_LEN as nat);
            let n = body.len() / HASH_LEN;
            proof {
                lemma_chunk_len(body@, HASH_LEN as nat);
                vstd::arithmetic::div_mod::lemma_fundamental_div_mod(
                    body@.len() as int,
                    HASH_LEN as int,
                );
            }
            let mut hashes: Vec<BlockHash> = Vec::new();
            let mut j: usize = 0;
            while j < n
                invariant
                    j <= n,
                    n == body@.len() / (HASH_LEN as nat),
                    body@.len() % (HASH_LEN as nat) == 0,
                    n * HASH_LEN == body@.len(),
                    cs == chunk_seq(body@, HASH_LEN as nat),
                    hashes@.len() == j,
                    forall|i: int| 0 <= i < j ==> #[trigger] hashes@[i]@ == cs[i],
                decreases n - j,
            {
                proof {
                    vstd::arithmetic::mul::lemma_mul_inequality(
                        j as int + 1,
                        n as int,
                        HASH_LEN as int,
                    );
                    assert((j as int + 1) * (HASH_LEN as int) == j * HASH_LEN + HASH_LEN)
                        by (nonlinear_arith);
                    lemma_chunk_index(body@, HASH_LEN as nat, j as int);
                }
                let base = j * HASH_LEN;
                let bytes = slice_to_vec(slice_subrange(body, base, base + HASH_LEN));
                hashes.push(BlockHash { bytes });
                j = j + 1;
            }
            let loc = Locator { hashes };
            assert(loc@ =~= cs);
            Ok(MsgBody::GetHeaders(loc))
        },
        MsgType::Headers => {
            if body.len() % BLOCK_HEADER_LEN != 0 {
                return Err(CodecError::BadBody);
            }
            let ghost cs = chunk_seq(body@, BLOCK_HEADER_LEN as nat);
            let n = body.len() / BLOCK_HEADER_LEN;
            proof {
                lemma_chunk_len(body@, BLOCK_HEADER_LEN as nat);
                vstd::arithmetic::div_mod::lemma_fundamental_div_mod(
                    body@.len() as int,
                    BLOCK_HEADER_LEN as int,
                );
            }
            let mut headers: Vec<BlockHeader> = Vec::new();
            let mut j: usize = 0;
            while j < n
                invariant
                    j <= n,
                    n == body@.len() / (BLOCK_HEADER_LEN as nat),
                    body@.len() % (BLOCK_HEADER_LEN as nat) == 0,
                    n * BLOCK_HEADER_LEN == body@.len(),
                    cs == chunk_seq(body@, BLOCK_HEADER_LEN as nat),
                    headers@.len() == j,
                    forall|i: int| 0 <= i < j ==> #[trigger] headers@[i]@ == cs[i],
                decreases n - j,
            {
                proof {
                    vstd::arithmetic::mul::lemma_mul_inequality(
                        j as int + 1,
                        n as int,
                        BLOCK_HEADER_LEN as int,
                    );
                    assert((j as int + 1) * (BLOCK_HEADER_LEN as int) == j * BLOCK_HEADER_LEN
                        + BLOCK_HEADER_LEN) by (nonlinear_arith);
                    lemma_chunk_index(body@, BLOCK_HEADER_LEN as nat, j as int);
                }
                let base = j * BLOCK_HEADER_LEN;
                let data = slice_to_vec(slice_subrange(body, base, base + BLOCK_HEADER_LEN));
                headers.push(BlockHeader { data });
                j = j + 1;
            }
            let hd = Headers { headers };
            assert(hd@ =~= cs);
            Ok(MsgBody::Headers(hd))
        },
        MsgType::GetBlock => {
            if body.len() != HASH_LEN {
                return Err(CodecError::BadBody);
            }
            let bytes = slice_to_vec(body);
            Ok(MsgBody::GetBlock(BlockHash { bytes }))
        },
        MsgType::Block => {
            if body.len() < HASH_LEN {
                return Err(CodecError::BadBody);
            }
            let hash_bytes = slice_to_vec(slice_subrange(body, 0, HASH_LEN));
            let payload = slice_to_vec(slice_subrange(body, HASH_LEN, body.len()));
            proof {
                assert(body@.subrange(0, HASH_LEN as int) =~= body@.take(HASH_LEN as int));
                assert(body@.subrange(HASH_LEN as int, body@.len() as int) =~= body@.skip(
                    HASH_LEN as int,
                ));
            }
            Ok(MsgBody::Block(Block { hash: BlockHash { bytes: hash_bytes }, payload }))
        },
        MsgType::Transaction => {
            let payload = slice_to_vec(body);
            Ok(MsgBody::Transaction(Transaction { payload }))
        },
    }
}

/// The message codec over a transport buffer: encodes frames onto the end
/// of an outbound buffer and decodes complete frames off the front of an
/// inbound buffer, committing only when a whole frame is available.
#[derive(Clone)]
pub struct MsgCodec;

impl Default for MsgCodec {
    fn default() -> (r: MsgCodec)
        ensures
            r == MsgCodec,
    {
        MsgCodec
    }
}

impl MsgCodec {
    /// Appends the frame of a well-formed message to the outbound buffer;
    /// on a malformed message the buffer is left untouched.
    pub fn encode(&self, id: u64, msg: &MsgBody, dst: &mut bytes::BytesMut) -> (r: Result<
        (),
        CodecError,
    >)
        ensures
            msg_wf(msg@) ==> (r matches Ok(_)) && buf_bytes(*final(dst)) == buf_bytes(*old(dst))
                + frame_bytes(id, msg@),
            !msg_wf(msg@) ==> r == Err::<(), CodecError>(CodecError::BadBody) && buf_bytes(
                *final(dst),
            ) == buf_bytes(*old(dst)),
    {
        match encode_frame(id, msg) {
            Ok(f) => {
                buf_put_slice(dst, f.as_slice());
                Ok(())
            },
            Err(e) => Err(e),
        }
    }

    /// Decodes at most one frame off the front of the inbound buffer. The
    /// buffer advances by exactly one frame when a complete frame is there,
    /// and is left untouched on "need more data" and on every failure.
    pub fn decode(&self, src: &mut bytes::BytesMut) -> (r: Result<Option<(u64, MsgBody)>, CodecError>)
        ensures
            ({
                let step = spec_decode(buf_bytes(*old(src)));
                match step {
                    DecodeStep::NeedMore => (r matches Ok(None)) && buf_bytes(*final(src))
                        == buf_bytes(*old(src)),
                    DecodeStep::Frame { id, msg, used } => (r matches Ok(Some(p)) && p.0 == id
                        && p.1@ == msg) && buf_bytes(*final(src)) == buf_bytes(*old(src)).skip(
                        used,
                    ),
                    DecodeStep::Fail { err } => r == Err::<Option<(u64, MsgBody)>, CodecError>(err)
                        && buf_bytes(*final(src)) == buf_bytes(*old(src)),
                }
            }),
    {
        let bytes = buf_to_vec(src);
        match decode_frame(bytes.as_slice()) {
            Ok(Some((id, m, used))) => {
                assert(used <= buf_bytes(*old(src)).len());
                let _consumed = buf_split_to(src, used);
                Ok(Some((id, m)))
            },
            Ok(None) => Ok(None),
            Err(e) => Err(e),
        }
    }
}

/// Decodes at most one frame from the front of `buf` without consuming
/// anything; agrees exactly with `spec_decode` on the buffer's bytes.
/// On a complete frame it returns the request id, the message, and the
/// number of bytes the frame occupies.
pub fn decode_frame(buf: &[u8]) -> (r: Result<Option<(u64, MsgBody, usize)>, CodecError>)
    ensures
        decode_matches(r, spec_decode(buf@)),
{
    if buf.len() < FRAME_PREFIX_LEN {
        return Ok(None);
    }
    if buf[0] != MAGIC_0 || buf[1] != MAGIC_1 {
        return Err(CodecError::BadMagic);
    }
    let t = match msg_type_of_byte(buf[2]) {
        Some(t) => t,
        None => {
            return Err(CodecError::UnknownType);
        },
    };
    let blen = read_u64_be(buf, 3);
    if blen > MAX_BODY_LEN {
        return Err(CodecError::TooLarge);
    }
    let blen_us = blen as usize;
    if buf.len() - FRAME_PREFIX_LEN < blen_us {
        return Ok(None);
    }
    let id = read_u64_be(buf, 11);
    let body = slice_subrange(buf, FRAME_PREFIX_LEN, FRAME_PREFIX_LEN + blen_us);
    match parse_body_exec(t, body) {
        Ok(m) => Ok(Some((id, m, FRAME_PREFIX_LEN + blen_us))),
        Err(e) => Err(e),
    }
}

} // verus!
