//! Protocol engine: outbound sends, inbound dispatch to the domain
//! callback interface, and correlation of outbound requests with their
//! replies.
//!
//! The engine owns no transport. Every send produces one complete frame
//! for the caller's writer path to transmit, and every decoded inbound
//! message is handed to `handle_message`, which may produce reply frames.
//! The byte counters count exactly the complete frames recorded, never
//! partial ones.

use vstd::prelude::*;

use crate::codec::{encode_frame, frame_bytes, lemma_body_len_bound, msg_wf, CodecError};
use crate::msg::{
    tag_of, Block, BlockHash, BlockHeader, BlockV, GetPeerAddrs, Headers, Locator, MsgBody,
    MsgBodyV, MsgType, PeerAddrs, SockAddr, Transaction,
};

verus! {

/// Largest number of bytes one frame can occupy: prefix plus bounded body.
pub const MAX_FRAME_LEN: u64 = 20_000_019;

/// A domain callback failure, forwarded unchanged as a connection-level
/// error. The domain's own detail stays with the adapter.
#[derive(Clone, Copy, PartialEq, Eq, Structural, Debug)]
pub struct AdapterError;

/// A connection-level dispatch failure.
#[derive(Clone, Copy, PartialEq, Eq, Structural, Debug)]
pub enum ProtocolError {
    /// The domain callback reported a failure.
    Adapter,
    /// A reply could not be serialized.
    Serialization,
}

/// The domain callback interface that inbound messages are dispatched to.
/// Implementations are supplied by the node around this layer; nothing is
/// assumed of their results beyond their types.
pub trait NetAdapter {
    /// A transaction arrived from the peer.
    fn transaction_received(&mut self, tx: Transaction) -> Result<(), AdapterError>;

    /// A block arrived from the peer.
    fn block_received(&mut self, b: Block) -> Result<(), AdapterError>;

    /// A batch of block headers arrived from the peer.
    fn headers_received(&mut self, headers: Vec<BlockHeader>) -> Result<(), AdapterError>;

    /// A list of peer addresses arrived from the peer.
    fn peer_addrs_received(&mut self, peers: Vec<SockAddr>) -> Result<(), AdapterError>;

    /// Looks a block up by its hash.
    fn get_block(&mut self, h: BlockHash) -> Option<Block>;

    /// Locates headers following the locator's position, if any.
    fn locate_headers(&mut self, locator: Vec<BlockHash>) -> Option<Vec<BlockHeader>>;

    /// Finds known peer addresses advertising the given capabilities.
    fn find_peer_addrs(&mut self, capabilities: u32) -> Option<Vec<SockAddr>>;
}

/// Total length of a sequence of byte strings.
pub open spec fn sum_len(s: Seq<Seq<u8>>) -> int
    decreases s.len(),
{
    if s.len() == 0 {
        0
    } else {
        s[0].len() + sum_len(s.drop_first())
    }
}

/// The views of a sequence of byte vectors.
pub open spec fn views_of(s: Seq<Vec<u8>>) -> Seq<Seq<u8>> {
    s.map(|i: int, v: Vec<u8>| v@)
}

/// `sum_len` distributes over appending one string.
pub proof fn lemma_sum_snoc(s: Seq<Seq<u8>>, x: Seq<u8>)
    ensures
        sum_len(s.push(x)) == sum_len(s) + x.len(),
    decreases s.len(),
{
    if s.len() == 0 {
        assert(s.push(x)[0] == x);
        assert(s.push(x).drop_first() =~= Seq::<Seq<u8>>::empty());
        assert(sum_len(s.push(x).drop_first()) == 0);
    } else {
        assert(s.push(x).drop_first() =~= s.drop_first().push(x));
        lemma_sum_snoc(s.drop_first(), x);
    }
}

/// Whether one pending expectation is resolved by an inbound reply of tag
/// `tag` carrying correlation key `key`: the tags must agree, and an entry
/// keyed by a hash is resolved only by that hash.
pub open spec fn matches_expect(
    e: (MsgType, Option<Seq<u8>>),
    tag: MsgType,
    key: Option<Seq<u8>>,
) -> bool {
    e.0 == tag && (e.1 is None || e.1 == key)
}

/// Removes the first pending expectation resolved by an inbound reply, if
/// any; later entries and non-matching entries are kept in order.
pub open spec fn resolve_expected(
    es: Seq<(MsgType, Option<Seq<u8>>)>,
    tag: MsgType,
    key: Option<Seq<u8>>,
) -> Seq<(MsgType, Option<Seq<u8>>)>
    decreases es.len(),
{
    if es.len() == 0 {
        es
    } else if matches_expect(es[0], tag, key) {
        es.drop_first()
    } else {
        seq![es[0]] + resolve_expected(es.drop_first(), tag, key)
    }
}

/// A reply with no resolving entry leaves the pending expectations as they
/// were.
pub proof fn lemma_resolve_no_match(
    es: Seq<(MsgType, Option<Seq<u8>>)>,
    tag: MsgType,
    key: Option<Seq<u8>>,
)
    requires
        forall|j: int| 0 <= j < es.len() ==> !matches_expect(#[trigger] es[j], tag, key),
    ensures
        resolve_expected(es, tag, key) == es,
    decreases es.len(),
{
    if es.len() > 0 {
        lemma_resolve_no_match(es.drop_first(), tag, key);
        assert(seq![es[0]] + es.drop_first() =~= es);
    }
}

/// A reply whose first resolving entry stands at `i` removes exactly that
/// entry.
pub proof fn lemma_resolve_first_match(
    es: Seq<(MsgType, Option<Seq<u8>>)>,
    tag: MsgType,
    key: Option<Seq<u8>>,
    i: int,
)
    requires
        0 <= i < es.len(),
        matches_expect(es[i], tag, key),
        forall|j: int| 0 <= j < i ==> !matches_expect(#[trigger] es[j], tag, key),
    ensures
        resolve_expected(es, tag, key) == es.remove(i),
    decreases es.len(),
{
    if i == 0 {
        assert(es.drop_first() =~= es.remove(0));
    } else {
        lemma_resolve_first_match(es.drop_first(), tag, key, i - 1);
        assert(seq![es[0]] + es.drop_first().remove(i - 1) =~= es.remove(i));
    }
}

/// The correlation key an inbound message carries: a block announces its
/// own hash, every other message carries none.
pub open spec fn key_of(m: MsgBodyV) -> Option<Seq<u8>> {
    match m {
        MsgBodyV::Block(b) => Some(b.hash),
        _ => None,
    }
}

/// Whether an inbound message is a reply kind that resolves pending
/// expectations.
pub open spec fn is_response_kind(m: MsgBodyV) -> bool {
    ||| m is Pong
    ||| m is Block
    ||| m is Headers
    ||| m is PeerAddrs
}

/// The message view of a batch of header units.
pub open spec fn headers_body(hs: Seq<BlockHeader>) -> MsgBodyV {
    MsgBodyV::Headers(hs.map(|i: int, h: BlockHeader| h@))
}

/// Builds the reply to a block query from the adapter's answer: a located
/// block is framed under the inbound id, absence earns silence, and a
/// located block that does not frame is a serialization failure.
pub fn reply_get_block(id: u64, found: Option<Block>) -> (r: Result<Option<Vec<u8>>, ProtocolError>)
    ensures
        found is None ==> r == Ok::<Option<Vec<u8>>, ProtocolError>(None),
        found matches Some(b) ==> (msg_wf(MsgBodyV::Block(b@)) ==> (r matches Ok(o)
            && o matches Some(f) && f@ == frame_bytes(id, MsgBodyV::Block(b@)) && f@.len()
            <= MAX_FRAME_LEN)),
        found matches Some(b) ==> (!msg_wf(MsgBodyV::Block(b@)) ==> r == Err::<
            Option<Vec<u8>>,
            ProtocolError,
        >(ProtocolError::Serialization)),
{
    match found {
        None => Ok(None),
        Some(b) => {
            let msg_out = MsgBody::Block(b);
            match encode_frame(id, &msg_out) {
                Ok(f) => {
                    proof {
                        lemma_body_len_bound(msg_out@);
                    }
                    Ok(Some(f))
                },
                Err(_) => Err(ProtocolError::Serialization),
            }
        },
    }
}

/// Builds the reply to a headers query from the adapter's located headers:
/// only a non-empty result is framed under the inbound id; absence and an
/// empty result both earn silence.
pub fn reply_locate_headers(id: u64, located: Option<Vec<BlockHeader>>) -> (r: Result<
    Option<Vec<u8>>,
    ProtocolError,
>)
    ensures
        located is None ==> r == Ok::<Option<Vec<u8>>, ProtocolError>(None),
        located matches Some(hs) ==> (hs@.len() == 0 ==> r == Ok::<
            Option<Vec<u8>>,
            ProtocolError,
        >(None)),
        located matches Some(hs) ==> ((hs@.len() > 0 && msg_wf(headers_body(hs@))) ==> (
        r matches Ok(o) && o matches Some(f) && f@ == frame_bytes(id, headers_body(hs@))
            && f@.len() <= MAX_FRAME_LEN)),
        located matches Some(hs) ==> ((hs@.len() > 0 && !msg_wf(headers_body(hs@))) ==> r == Err::<
            Option<Vec<u8>>,
            ProtocolError,
        >(ProtocolError::Serialization)),
{
    match located {
        None => Ok(None),
        Some(hs) => {
            if hs.len() == 0 {
                return Ok(None);
            }
            let ghost ghs = hs@;
            let msg_out = MsgBody::Headers(Headers { headers: hs });
            proof {
                assert(msg_out@ =~~= headers_body(ghs));
            }
            match encode_frame(id, &msg_out) {
                Ok(f) => {
                    proof {
                        lemma_body_len_bound(msg_out@);
                    }
                    Ok(Some(f))
                },
                Err(_) => Err(ProtocolError::Serialization),
            }
        },
    }
}

/// Builds the reply to a peer-address query from the adapter's answer: a
/// present list is framed under the inbound id, absence earns silence, and
/// a list that does not frame is a serialization failure.
pub fn reply_find_peer_addrs(id: u64, found: Option<Vec<SockAddr>>) -> (r: Result<
    Option<Vec<u8>>,
    ProtocolError,
>)
    ensures
        found is None ==> r == Ok::<Option<Vec<u8>>, ProtocolError>(None),
        found matches Some(ps) ==> (msg_wf(MsgBodyV::PeerAddrs(ps@)) ==> (r matches Ok(o)
            && o matches Some(f) && f@ == frame_bytes(id, MsgBodyV::PeerAddrs(ps@)) && f@.len()
            <= MAX_FRAME_LEN)),
        found matches Some(ps) ==> (!msg_wf(MsgBodyV::PeerAddrs(ps@)) ==> r == Err::<
            Option<Vec<u8>>,
            ProtocolError,
        >(ProtocolError::Serialization)),
{
    match found {
        None => Ok(None),
        Some(ps) => {
            let msg_out = MsgBody::PeerAddrs(PeerAddrs { peers: ps });
            match encode_frame(id, &msg_out) {
                Ok(f) => {
                    proof {
                        lemma_body_len_bound(msg_out@);
                    }
                    Ok(Some(f))
                },
                Err(_) => Err(ProtocolError::Serialization),
            }
        },
    }
}

/// The protocol engine of one established connection: pending
/// request/response correlations and the transmitted-byte counters. The
/// counters equal exactly the summed sizes of the complete frames recorded
/// so far, as the ghost logs witness.
pub struct ProtocolV1 {
    pub expected_responses: Vec<(MsgType, Option<BlockHash>)>,
    pub sent_bytes: u64,
    pub received_bytes: u64,
    pub next_id: u64,
    pub closed: bool,
    pub sent_log: Ghost<Seq<Seq<u8>>>,
    pub recv_log: Ghost<Seq<Seq<u8>>>,
}

impl ProtocolV1 {
    /// The pending expectations, as mathematical values.
    pub open spec fn expectations(&self) -> Seq<(MsgType, Option<Seq<u8>>)> {
        self.expected_responses@.map(
            |i: int, e: (MsgType, Option<BlockHash>)|
                (
                    e.0,
                    match e.1 {
                        Some(h) => Some(h@),
                        None => None,
                    },
                ),
        )
    }

    /// The counters equal exactly the summed sizes of the recorded frames.
    pub open spec fn wf(&self) -> bool {
        &&& self.sent_bytes == sum_len(self.sent_log@)
        &&& self.received_bytes == sum_len(self.recv_log@)
    }

    /// A fresh engine: nothing pending, nothing counted.
    pub fn new() -> (r: ProtocolV1)
        ensures
            r.wf(),
            r.expectations() =~= Seq::<(MsgType, Option<Seq<u8>>)>::empty(),
            r.sent_bytes == 0,
            r.received_bytes == 0,
            r.next_id == 0,
            !r.closed,
            r.sent_log@ == Seq::<Seq<u8>>::empty(),
            r.recv_log@ == Seq::<Seq<u8>>::empty(),
    {
        ProtocolV1 {
            expected_responses: Vec::new(),
            sent_bytes: 0,
            received_bytes: 0,
            next_id: 0,
            closed: false,
            sent_log: Ghost(Seq::empty()),
            recv_log: Ghost(Seq::empty()),
        }
    }

    /// Cumulative bytes of complete frames sent and received, in that
    /// order. Read-only.
    pub fn transmitted_bytes(&self) -> (r: (u64, u64))
        ensures
            r.0 == self.sent_bytes,
            r.1 == self.received_bytes,
    {
        (self.sent_bytes, self.received_bytes)
    }

    /// Marks the connection closed. No further frames are produced; the
    /// caller tears the transport down.
    pub fn close(&mut self)
        ensures
            final(self).closed,
            final(self).expected_responses == old(self).expected_responses,
            final(self).sent_bytes == old(self).sent_bytes,
            final(self).received_bytes == old(self).received_bytes,
            final(self).next_id == old(self).next_id,
            final(self).sent_log == old(self).sent_log,
            final(self).recv_log == old(self).recv_log,
    {
        self.closed = true;
    }

    /// Records one complete inbound frame of `frame_len` bytes against the
    /// received counter.
    pub fn record_received(&mut self, frame: &[u8])
        requires
            old(self).wf(),
            old(self).received_bytes + frame@.len() <= u64::MAX,
        ensures
            final(self).wf(),
            final(self).received_bytes == old(self).received_bytes + frame@.len(),
            final(self).recv_log@ == old(self).recv_log@.push(frame@),
            final(self).sent_bytes == old(self).sent_bytes,
            final(self).sent_log == old(self).sent_log,
            final(self).expected_responses == old(self).expected_responses,
            final(self).next_id == old(self).next_id,
            final(self).closed == old(self).closed,
    {
        proof {
            lemma_sum_snoc(self.recv_log@, frame@);
        }
        self.received_bytes = self.received_bytes + frame.len() as u64;
        self.recv_log = Ghost(self.recv_log@.push(frame@));
    }

    /// Records one complete outbound frame against the sent counter.
    fn record_sent(&mut self, frame: &Vec<u8>)
        requires
            old(self).wf(),
            old(self).sent_bytes + frame@.len() <= u64::MAX,
        ensures
            final(self).wf(),
            final(self).sent_bytes == old(self).sent_bytes + frame@.len(),
            final(self).sent_log@ == old(self).sent_log@.push(frame@),
            final(self).received_bytes == old(self).received_bytes,
            final(self).recv_log == old(self).recv_log,
            final(self).expected_responses == old(self).expected_responses,
            final(self).next_id == old(self).next_id,
            final(self).closed == old(self).closed,
    {
        proof {
            lemma_sum_snoc(self.sent_log@, frame@);
        }
        self.sent_bytes = self.sent_bytes + frame.len() as u64;
        self.sent_log = Ghost(self.sent_log@.push(frame@));
    }

    /// Serializes one outbound message under a fresh request id, counts the
    /// frame, and hands it to the writer path. No reply is expected.
    pub fn send_msg(&mut self, msg: &MsgBody) -> (r: Result<Vec<u8>, CodecError>)
        requires
            old(self).wf(),
            !old(self).closed,
            old(self).sent_bytes + MAX_FRAME_LEN <= u64::MAX,
            old(self).next_id < u64::MAX,
        ensures
            final(self).wf(),
            msg_wf(msg@) ==> ({
                &&& r matches Ok(f) && f@ == frame_bytes(old(self).next_id, msg@)
                &&& final(self).next_id == old(self).next_id + 1
                &&& final(self).sent_bytes == old(self).sent_bytes + frame_bytes(
                    old(self).next_id,
                    msg@,
                ).len()
                &&& final(self).sent_log@ == old(self).sent_log@.push(
                    frame_bytes(old(self).next_id, msg@),
                )
            }),
            !msg_wf(msg@) ==> r == Err::<Vec<u8>, CodecError>(CodecError::BadBody) && *final(self)
                == *old(self),
            final(self).expectations() == old(self).expectations(),
            final(self).received_bytes == old(self).received_bytes,
            final(self).recv_log == old(self).recv_log,
            final(self).closed == old(self).closed,
            old(self).sent_bytes <= final(self).sent_bytes,
    {
        match encode_frame(self.next_id, msg) {
            Ok(f) => {
                proof {
                    lemma_body_len_bound(msg@);
                }
                self.record_sent(&f);
                self.next_id = self.next_id + 1;
                Ok(f)
            },
            Err(e) => Err(e),
        }
    }

    /// Serializes one outbound request, counts the frame, and registers the
    /// expectation of a reply of `response_type`, keyed by `expect` when
    /// the reply must carry a specific hash.
    pub fn send_request(
        &mut self,
        msg: &MsgBody,
        response_type: MsgType,
        expect: Option<BlockHash>,
    ) -> (r: Result<Vec<u8>, CodecError>)
        requires
            old(self).wf(),
            !old(self).closed,
            old(self).sent_bytes + MAX_FRAME_LEN <= u64::MAX,
            old(self).next_id < u64::MAX,
        ensures
            final(self).wf(),
            msg_wf(msg@) ==> ({
                &&& r matches Ok(f) && f@ == frame_bytes(old(self).next_id, msg@)
                &&& final(self).next_id == old(self).next_id + 1
                &&& final(self).sent_bytes == old(self).sent_bytes + frame_bytes(
                    old(self).next_id,
                    msg@,
                ).len()
                &&& final(self).sent_log@ == old(self).sent_log@.push(
                    frame_bytes(old(self).next_id, msg@),
                )
                &&& final(self).expectations() == old(self).expectations().push(
                    (
                        response_type,
                        match expect {
                            Some(h) => Some(h@),
                            None => None,
                        },
                    ),
                )
            }),
            !msg_wf(msg@) ==> r == Err::<Vec<u8>, CodecError>(CodecError::BadBody) && *final(self)
                == *old(self),
            final(self).received_bytes == old(self).received_bytes,
            final(self).recv_log == old(self).recv_log,
            final(self).closed == old(self).closed,
            old(self).sent_bytes <= final(self).sent_bytes,
    {
        let ghost pre = self.expectations();
        match encode_frame(self.next_id, msg) {
            Ok(f) => {
                proof {
                    lemma_body_len_bound(msg@);
                }
                self.record_sent(&f);
                self.next_id = self.next_id + 1;
                self.expected_responses.push((response_type, expect));
                proof {
                    assert(self.expectations() =~= pre.push(
                        (
                            response_type,
                            match expect {
                                Some(h) => Some(h@),
                                None => None,
                            },
                        ),
                    ));
                }
                Ok(f)
            },
            Err(e) => Err(e),
        }
    }

    /// Sends a ping; a pong is expected in reply, with no payload
    /// correlation.
    pub fn send_ping(&mut self) -> (r: Result<Vec<u8>, CodecError>)
        requires
            old(self).wf(),
            !old(self).closed,
            old(self).sent_bytes + MAX_FRAME_LEN <= u64::MAX,
            old(self).next_id < u64::MAX,
        ensures
            final(self).wf(),
            r matches Ok(f) && f@ == frame_bytes(old(self).next_id, MsgBodyV::Ping),
            final(self).expectations() == old(self).expectations().push(
                (MsgType::Pong, None::<Seq<u8>>),
            ),
            final(self).sent_bytes == old(self).sent_bytes + frame_bytes(
                old(self).next_id,
                MsgBodyV::Ping,
            ).len(),
            final(self).sent_log@ == old(self).sent_log@.push(
                frame_bytes(old(self).next_id, MsgBodyV::Ping),
            ),
            final(self).next_id == old(self).next_id + 1,
            final(self).received_bytes == old(self).received_bytes,
            final(self).recv_log == old(self).recv_log,
            final(self).closed == old(self).closed,
            old(self).sent_bytes <= final(self).sent_bytes,
    {
        let r = self.send_request(&MsgBody::Ping, MsgType::Pong, None);
        r
    }

    /// Serializes and sends a block to the peer. One-way: no reply is
    /// expected.
    pub fn send_block(&mut self, b: Block) -> (r: Result<Vec<u8>, CodecError>)
        requires
            old(self).wf(),
            !old(self).closed,
            old(self).sent_bytes + MAX_FRAME_LEN <= u64::MAX,
            old(self).next_id < u64::MAX,
        ensures
            final(self).wf(),
            msg_wf(MsgBodyV::Block(b@)) ==> ({
                &&& r matches Ok(f) && f@ == frame_bytes(old(self).next_id, MsgBodyV::Block(b@))
                &&& final(self).next_id == old(self).next_id + 1
                &&& final(self).sent_bytes == old(self).sent_bytes + frame_bytes(
                    old(self).next_id,
                    MsgBodyV::Block(b@),
                ).len()
                &&& final(self).sent_log@ == old(self).sent_log@.push(
                    frame_bytes(old(self).next_id, MsgBodyV::Block(b@)),
                )
            }),
            !msg_wf(MsgBodyV::Block(b@)) ==> r == Err::<Vec<u8>, CodecError>(CodecError::BadBody)
                && *final(self) == *old(self),
            final(self).expectations() == old(self).expectations(),
            final(self).received_bytes == old(self).received_bytes,
            final(self).recv_log == old(self).recv_log,
            final(self).closed == old(self).closed,
            old(self).sent_bytes <= final(self).sent_bytes,
    {
        self.send_msg(&MsgBody::Block(b))
    }

    /// Serializes and sends a transaction to the peer. One-way: no reply is
    /// expected.
    pub fn send_transaction(&mut self, tx: Transaction) -> (r: Result<Vec<u8>, CodecError>)
        requires
            old(self).wf(),
            !old(self).closed,
            old(self).sent_bytes + MAX_FRAME_LEN <= u64::MAX,
            old(self).next_id < u64::MAX,
        ensures
            final(self).wf(),
            msg_wf(MsgBodyV::Transaction(tx@)) ==> ({
                &&& r matches Ok(f) && f@ == frame_bytes(
                    old(self).next_id,
                    MsgBodyV::Transaction(tx@),
                )
                &&& final(self).next_id == old(self).next_id + 1
                &&& final(self).sent_bytes == old(self).sent_bytes + frame_bytes(
                    old(self).next_id,
                    MsgBodyV::Transaction(tx@),
                ).len()
                &&& final(self).sent_log@ == old(self).sent_log@.push(
                    frame_bytes(old(self).next_id, MsgBodyV::Transaction(tx@)),
                )
            }),
            !msg_wf(MsgBodyV::Transaction(tx@)) ==> r == Err::<Vec<u8>, CodecError>(
                CodecError::BadBody,
            ) && *final(self) == *old(self),
            final(self).expectations() == old(self).expectations(),
            final(self).received_bytes == old(self).received_bytes,
            final(self).recv_log == old(self).recv_log,
            final(self).closed == old(self).closed,
            old(self).sent_bytes <= final(self).sent_bytes,
    {
        self.send_msg(&MsgBody::Transaction(tx))
    }

    /// Requests the headers following a locator; a headers reply is
    /// expected.
    pub fn send_header_request(&mut self, locator: Vec<BlockHash>) -> (r: Result<
        Vec<u8>,
        CodecError,
    >)
        requires
            old(self).wf(),
            !old(self).closed,
            old(self).sent_bytes + MAX_FRAME_LEN <= u64::MAX,
            old(self).next_id < u64::MAX,
        ensures
            final(self).wf(),
            msg_wf(MsgBodyV::GetHeaders(Locator { hashes: locator }@)) ==> ({
                &&& r matches Ok(f) && f@ == frame_bytes(
                    old(self).next_id,
                    MsgBodyV::GetHeaders(Locator { hashes: locator }@),
                )
                &&& final(self).expectations() == old(self).expectations().push(
                    (MsgType::Headers, None::<Seq<u8>>),
                )
                &&& final(self).next_id == old(self).next_id + 1
                &&& final(self).sent_bytes == old(self).sent_bytes + frame_bytes(
                    old(self).next_id,
                    MsgBodyV::GetHeaders(Locator { hashes: locator }@),
                ).len()
                &&& final(self).sent_log@ == old(self).sent_log@.push(
                    frame_bytes(
                        old(self).next_id,
                        MsgBodyV::GetHeaders(Locator { hashes: locator }@),
                    ),
                )
            }),
            !msg_wf(MsgBodyV::GetHeaders(Locator { hashes: locator }@)) ==> r == Err::<
                Vec<u8>,
                CodecError,
            >(CodecError::BadBody) && *final(self) == *old(self),
            final(self).received_bytes == old(self).received_bytes,
            final(self).recv_log == old(self).recv_log,
            final(self).closed == old(self).closed,
            old(self).sent_bytes <= final(self).sent_bytes,
    {
        self.send_request(&MsgBody::GetHeaders(Locator { hashes: locator }), MsgType::Headers, None)
    }

    /// Requests one block by hash; a block reply is expected and is matched
    /// by that hash, not by request id alone.
    pub fn send_block_request(&mut self, h: BlockHash) -> (r: Result<Vec<u8>, CodecError>)
        requires
            old(self).wf(),
            !old(self).closed,
            old(self).sent_bytes + MAX_FRAME_LEN <= u64::MAX,
            old(self).next_id < u64::MAX,
        ensures
            final(self).wf(),
            h@.len() == 32 ==> ({
                &&& r matches Ok(f) && f@ == frame_bytes(old(self).next_id, MsgBodyV::GetBlock(h@))
                &&& final(self).expectations() == old(self).expectations().push(
                    (MsgType::Block, Some(h@)),
                )
                &&& final(self).next_id == old(self).next_id + 1
                &&& final(self).sent_bytes == old(self).sent_bytes + frame_bytes(
                    old(self).next_id,
                    MsgBodyV::GetBlock(h@),
                ).len()
                &&& final(self).sent_log@ == old(self).sent_log@.push(
                    frame_bytes(old(self).next_id, MsgBodyV::GetBlock(h@)),
                )
            }),
            h@.len() != 32 ==> r == Err::<Vec<u8>, CodecError>(CodecError::BadBody) && *final(self)
                == *old(self),
            final(self).received_bytes == old(self).received_bytes,
            final(self).recv_log == old(self).recv_log,
            final(self).closed == old(self).closed,
            old(self).sent_bytes <= final(self).sent_bytes,
    {
        let dup = BlockHash { bytes: crate::ser::copy_bytes(&h.bytes) };
        self.send_request(&MsgBody::GetBlock(dup), MsgType::Block, Some(h))
    }

    /// Requests peer addresses advertising the given capabilities; a peer
    /// address list is expected in reply.
    pub fn send_peer_request(&mut self, capab: u32) -> (r: Result<Vec<u8>, CodecError>)
        requires
            old(self).wf(),
            !old(self).closed,
            old(self).sent_bytes + MAX_FRAME_LEN <= u64::MAX,
            old(self).next_id < u64::MAX,
        ensures
            final(self).wf(),
            r matches Ok(f) && f@ == frame_bytes(
                old(self).next_id,
                MsgBodyV::GetPeerAddrs(GetPeerAddrs { capabilities: capab }),
            ),
            final(self).expectations() == old(self).expectations().push(
                (MsgType::PeerAddrs, None::<Seq<u8>>),
            ),
            final(self).next_id == old(self).next_id + 1,
            final(self).sent_bytes == old(self).sent_bytes + frame_bytes(
                old(self).next_id,
                MsgBodyV::GetPeerAddrs(GetPeerAddrs { capabilities: capab }),
            ).len(),
            final(self).sent_log@ == old(self).sent_log@.push(
                frame_bytes(
                    old(self).next_id,
                    MsgBodyV::GetPeerAddrs(GetPeerAddrs { capabilities: capab }),
                ),
            ),
            final(self).received_bytes == old(self).received_bytes,
            final(self).recv_log == old(self).recv_log,
            final(self).closed == old(self).closed,
            old(self).sent_bytes <= final(self).sent_bytes,
    {
        let r = self.send_request(
            &MsgBody::GetPeerAddrs(GetPeerAddrs { capabilities: capab }),
            MsgType::PeerAddrs,
            None,
        );
        r
    }

    /// Removes the first pending expectation resolved by an inbound reply
    /// of tag `tag` carrying key `key`, if any.
    fn resolve(&mut self, tag: MsgType, key: Option<&BlockHash>)
        ensures
            final(self).expectations() == resolve_expected(
                old(self).expectations(),
                tag,
                match key {
                    Some(h) => Some(h@),
                    None => None,
                },
            ),
            final(self).sent_bytes == old(self).sent_bytes,
            final(self).received_bytes == old(self).received_bytes,
            final(self).sent_log == old(self).sent_log,
            final(self).recv_log == old(self).recv_log,
            final(self).next_id == old(self).next_id,
            final(self).closed == old(self).closed,
    {
        let ghost es = old(self).expectations();
        let ghost k: Option<Seq<u8>> = match key {
            Some(h) => Some(h@),
            None => None,
        };
        let n = self.expected_responses.len();
        let mut i: usize = 0;
        while i < n
            invariant
                i <= n,
                n == self.expected_responses@.len(),
                *self == *old(self),
                es == old(self).expectations(),
                k == (match key {
                    Some(h) => Some(h@),
                    None => None::<Seq<u8>>,
                }),
                forall|j: int| 0 <= j < i ==> !matches_expect(#[trigger] es[j], tag, k),
            decreases n - i,
        {
            let e = &self.expected_responses[i];
            let tag_hit = e.0 == tag;
            let key_hit = match (&e.1, key) {
                (None, _) => true,
                (Some(eh), Some(kh)) => bytes_eq(&eh.bytes, &kh.bytes),
                (Some(_), None) => false,
            };
            if tag_hit && key_hit {
                proof {
                    assert(matches_expect(es[i as int], tag, k));
                    lemma_resolve_first_match(es, tag, k, i as int);
                }
                self.expected_responses.remove(i);
                proof {
                    assert(self.expectations() =~= es.remove(i as int));
                }
                return ;
            }
            proof {
                assert(!matches_expect(es[i as int], tag, k));
            }
            i = i + 1;
        }
        proof {
            lemma_resolve_no_match(es, tag, k);
        }
    }

    /// Dispatches one inbound message received after the handshake, under
    /// the request id it arrived with. Produces the reply frames to send,
    /// counts them, and resolves the pending expectation the message
    /// answers. On a domain callback failure or an unserializable reply the
    /// engine is left exactly as it was and the error is surfaced to the
    /// connection's owner.
    pub fn handle_message<A: NetAdapter>(
        &mut self,
        adapter: &mut A,
        id: u64,
        msg: MsgBody,
    ) -> (r: Result<Vec<Vec<u8>>, ProtocolError>)
        requires
            old(self).wf(),
            !old(self).closed,
            old(self).sent_bytes + MAX_FRAME_LEN <= u64::MAX,
        ensures
            final(self).wf(),
            r matches Err(_) ==> *final(self) == *old(self),
            r matches Ok(rs) ==> ({
                &&& final(self).sent_log@ == old(self).sent_log@ + views_of(rs@)
                &&& final(self).sent_bytes == old(self).sent_bytes + sum_len(views_of(rs@))
                &&& final(self).expectations() == (if is_response_kind(msg@) {
                    resolve_expected(old(self).expectations(), tag_of(msg@), key_of(msg@))
                } else {
                    old(self).expectations()
                })
                &&& final(self).received_bytes == old(self).received_bytes
                &&& final(self).recv_log == old(self).recv_log
                &&& final(self).next_id == old(self).next_id
                &&& final(self).closed == old(self).closed
            }),
            msg@ is Ping ==> (r matches Ok(rs) && views_of(rs@) == seq![
                frame_bytes(id, MsgBodyV::Pong),
            ]),
            msg@ is Pong ==> (r matches Ok(rs) && rs@.len() == 0),
            (msg@ is Hand || msg@ is Shake || msg@ is PeerError) ==> (r matches Ok(rs)
                && rs@.len() == 0),
            msg@ is GetBlock ==> (r matches Ok(rs) ==> (rs@.len() <= 1 && (rs@.len() == 1 ==> (
            exists|bv: BlockV|
                msg_wf(MsgBodyV::Block(bv)) && views_of(rs@)[0] == frame_bytes(
                    id,
                    MsgBodyV::Block(bv),
                )
            )))),
            msg@ is GetHeaders ==> (r matches Ok(rs) ==> (rs@.len() <= 1 && (rs@.len() == 1 ==> (
            exists|hsv: Seq<Seq<u8>>|
                hsv.len() > 0 && msg_wf(MsgBodyV::Headers(hsv)) && views_of(rs@)[0] == frame_bytes(
                    id,
                    MsgBodyV::Headers(hsv),
                )
            )))),
            msg@ is GetPeerAddrs ==> (r matches Ok(rs) ==> (rs@.len() <= 1 && (rs@.len() == 1 ==> (
            exists|psv: Seq<SockAddr>|
                msg_wf(MsgBodyV::PeerAddrs(psv)) && views_of(rs@)[0] == frame_bytes(
                    id,
                    MsgBodyV::PeerAddrs(psv),
                )
            )))),
            (msg@ is Block || msg@ is Headers || msg@ is PeerAddrs || msg@ is Transaction) ==> (
            r matches Ok(rs) ==> rs@.len() == 0),
            (msg@ is Ping || msg@ is GetBlock || msg@ is GetHeaders || msg@ is GetPeerAddrs) ==> (
            r matches Err(e) ==> e == ProtocolError::Serialization),
            (msg@ is Transaction || msg@ is Block || msg@ is Headers || msg@ is PeerAddrs) ==> (
            r matches Err(e) ==> e == ProtocolError::Adapter),
            old(self).sent_bytes <= final(self).sent_bytes,
    {
        let mut replies: Vec<Vec<u8>> = Vec::new();
        assert(views_of(replies@) =~= Seq::<Seq<u8>>::empty());
        match msg {
            MsgBody::Ping => {
                let f = match encode_frame(id, &MsgBody::Pong) {
                    Ok(f) => f,
                    Err(_) => {
                        proof {
                            assert(msg_wf(MsgBodyV::Pong));
                        }
                        return Err(ProtocolError::Serialization);
                    },
                };
                proof {
                    lemma_body_len_bound(MsgBodyV::Pong);
                }
                self.record_sent(&f);
                replies.push(f);
                assert(views_of(replies@) =~= seq![frame_bytes(id, MsgBodyV::Pong)]);
                proof {
                    let v = views_of(replies@);
                    assert(v.drop_first() =~= Seq::<Seq<u8>>::empty());
                    assert(sum_len(v.drop_first()) == 0);
                    assert(sum_len(v) == f@.len());
                }
                assert(self.sent_log@ =~= old(self).sent_log@ + views_of(replies@));
                Ok(replies)
            },
            MsgBody::Pong => {
                self.resolve(MsgType::Pong, None);
                assert(sum_len(views_of(replies@)) == 0);
                assert(self.sent_log@ =~= old(self).sent_log@ + views_of(replies@));
                Ok(replies)
            },
            MsgBody::Transaction(tx) => {
                match adapter.transaction_received(tx) {
                    Ok(_) => {
                        assert(sum_len(views_of(replies@)) == 0);
                        assert(self.sent_log@ =~= old(self).sent_log@ + views_of(replies@));
                        Ok(replies)
                    },
                    Err(_) => Err(ProtocolError::Adapter),
                }
            },
            MsgBody::GetBlock(h) => {
                let found = adapter.get_block(h);
                let ghost gfound = found;
                match reply_get_block(id, found) {
                    Ok(Some(f)) => {
                        self.record_sent(&f);
                        replies.push(f);
                        assert(views_of(replies@) =~= seq![f@]);
                        proof {
                            let v = views_of(replies@);
                            assert(v.drop_first() =~= Seq::<Seq<u8>>::empty());
                            assert(sum_len(v.drop_first()) == 0);
                            assert(sum_len(v) == f@.len());
                            let b = gfound.unwrap();
                            assert(msg_wf(MsgBodyV::Block(b@)) && v[0] == frame_bytes(
                                id,
                                MsgBodyV::Block(b@),
                            ));
                        }
                        assert(self.sent_log@ =~= old(self).sent_log@ + views_of(replies@));
                        Ok(replies)
                    },
                    Ok(None) => {
                        assert(sum_len(views_of(replies@)) == 0);
                        assert(self.sent_log@ =~= old(self).sent_log@ + views_of(replies@));
                        Ok(replies)
                    },
                    Err(e) => Err(e),
                }
            },
            MsgBody::Block(b) => {
                let bh = BlockHash { bytes: crate::ser::copy_bytes(&b.hash.bytes) };
                match adapter.block_received(b) {
                    Ok(_) => {
                        self.resolve(MsgType::Block, Some(&bh));
                        assert(sum_len(views_of(replies@)) == 0);
                        assert(self.sent_log@ =~= old(self).sent_log@ + views_of(replies@));
                        Ok(replies)
                    },
                    Err(_) => Err(ProtocolError::Adapter),
                }
            },
            MsgBody::GetHeaders(loc) => {
                let located = adapter.locate_headers(loc.hashes);
                let ghost glocated = located;
                match reply_locate_headers(id, located) {
                    Ok(Some(f)) => {
                        self.record_sent(&f);
                        replies.push(f);
                        assert(views_of(replies@) =~= seq![f@]);
                        proof {
                            let v = views_of(replies@);
                            assert(v.drop_first() =~= Seq::<Seq<u8>>::empty());
                            assert(sum_len(v.drop_first()) == 0);
                            assert(sum_len(v) == f@.len());
                            let hs = glocated.unwrap();
                            match headers_body(hs@) {
                                MsgBodyV::Headers(hsv) => {
                                    assert(hsv.len() > 0 && msg_wf(MsgBodyV::Headers(hsv)) && v[0]
                                        == frame_bytes(id, MsgBodyV::Headers(hsv)));
                                },
                                _ => {
                                    assert(false);
                                },
                            }
                        }
                        assert(self.sent_log@ =~= old(self).sent_log@ + views_of(replies@));
                        Ok(replies)
                    },
                    Ok(None) => {
                        assert(sum_len(views_of(replies@)) == 0);
                        assert(self.sent_log@ =~= old(self).sent_log@ + views_of(replies@));
                        Ok(replies)
                    },
                    Err(e) => Err(e),
                }
            },
            MsgBody::Headers(h) => {
                match adapter.headers_received(h.headers) {
                    Ok(_) => {
                        self.resolve(MsgType::Headers, None);
                        assert(sum_len(views_of(replies@)) == 0);
                        assert(self.sent_log@ =~= old(self).sent_log@ + views_of(replies@));
                        Ok(replies)
                    },
                    Err(_) => Err(ProtocolError::Adapter),
                }
            },
            MsgBody::GetPeerAddrs(g) => {
                let found = adapter.find_peer_addrs(g.capabilities);
                let ghost gfound = found;
                match reply_find_peer_addrs(id, found) {
                    Ok(Some(f)) => {
                        self.record_sent(&f);
                        replies.push(f);
                        assert(views_of(replies@) =~= seq![f@]);
                        proof {
                            let v = views_of(replies@);
                            assert(v.drop_first() =~= Seq::<Seq<u8>>::empty());
                            assert(sum_len(v.drop_first()) == 0);
                            assert(sum_len(v) == f@.len());
                            let ps = gfound.unwrap();
                            assert(msg_wf(MsgBodyV::PeerAddrs(ps@)) && v[0] == frame_bytes(
                                id,
                                MsgBodyV::PeerAddrs(ps@),
                            ));
                        }
                        assert(self.sent_log@ =~= old(self).sent_log@ + views_of(replies@));
                        Ok(replies)
                    },
                    Ok(None) => {
                        assert(sum_len(views_of(replies@)) == 0);
                        assert(self.sent_log@ =~= old(self).sent_log@ + views_of(replies@));
                        Ok(replies)
                    },
                    Err(e) => Err(e),
                }
            },
            MsgBody::PeerAddrs(p) => {
                match adapter.peer_addrs_received(p.peers) {
                    Ok(_) => {
                        self.resolve(MsgType::PeerAddrs, None);
                        assert(sum_len(views_of(replies@)) == 0);
                        assert(self.sent_log@ =~= old(self).sent_log@ + views_of(replies@));
                        Ok(replies)
                    },
                    Err(_) => Err(ProtocolError::Adapter),
                }
            },
            MsgBody::Hand(_) => {
                assert(sum_len(views_of(replies@)) == 0);
                assert(self.sent_log@ =~= old(self).sent_log@ + views_of(replies@));
                Ok(replies)
            },
            MsgBody::Shake(_) => {
                assert(sum_len(views_of(replies@)) == 0);
                assert(self.sent_log@ =~= old(self).sent_log@ + views_of(replies@));
                Ok(replies)
            },
            MsgBody::PeerError(_) => {
                assert(sum_len(views_of(replies@)) == 0);
                assert(self.sent_log@ =~= old(self).sent_log@ + views_of(replies@));
                Ok(replies)
            },
        }
    }
}

/// Whether two byte vectors hold the same bytes.
pub fn bytes_eq(a: &Vec<u8>, b: &Vec<u8>) -> (r: bool)
    ensures
        r == (a@ == b@),
{
    if a.len() != b.len() {
        return false;
    }
    let n = a.len();
    let mut i: usize = 0;
    while i < n
        invariant
            i <= n,
            n == a@.len(),
            n == b@.len(),
            forall|j: int| 0 <= j < i ==> a@[j] == b@[j],
        decreases n - i,
    {
        if a[i] != b[i] {
            return false;
        }
        i = i + 1;
    }
    proof {
        assert(a@ =~= b@);
    }
    true
}

/// The transmitted-byte counters of a well-formed engine equal exactly
/// the summed sizes of the complete frames recorded in its logs. Partial
/// or failed frames are never recorded, so they never count; and since
/// every operation only appends to the logs, the counters never decrease.
pub proof fn lemma_counters_are_exact(p: ProtocolV1)
    requires
        p.wf(),
    ensures
        p.sent_bytes == sum_len(p.sent_log@),
        p.received_bytes == sum_len(p.recv_log@),
{
}

/// Registering a block request keyed by hash `h` and then receiving the
/// block whose hash is `h` resolves exactly that pending expectation,
/// provided no earlier entry already awaited it.
pub proof fn lemma_block_request_resolved(es: Seq<(MsgType, Option<Seq<u8>>)>, h: Seq<u8>)
    requires
        forall|j: int| 0 <= j < es.len() ==> !matches_expect(
            #[trigger] es[j],
            MsgType::Block,
            Some(h),
        ),
    ensures
        resolve_expected(es.push((MsgType::Block, Some(h))), MsgType::Block, Some(h)) == es,
{
    let es2 = es.push((MsgType::Block, Some(h)));
    assert(matches_expect(es2[es.len() as int], MsgType::Block, Some(h)));
    lemma_resolve_first_match(es2, MsgType::Block, Some(h), es.len() as int);
    assert(es2.remove(es.len() as int) =~= es);
}

/// Receiving a block whose hash differs from every pending key, with no
/// unkeyed block expectation pending, resolves nothing.
pub proof fn lemma_unrelated_block_ignored(
    es: Seq<(MsgType, Option<Seq<u8>>)>,
    h: Seq<u8>,
    other: Seq<u8>,
)
    requires
        h != other,
        forall|j: int| 0 <= j < es.len() ==> !matches_expect(
            #[trigger] es[j],
            MsgType::Block,
            Some(other),
        ),
    ensures
        resolve_expected(es.push((MsgType::Block, Some(h))), MsgType::Block, Some(other))
            == es.push((MsgType::Block, Some(h))),
{
    let es2 = es.push((MsgType::Block, Some(h)));
    assert(forall|j: int| 0 <= j < es2.len() ==> !matches_expect(
        #[trigger] es2[j],
        MsgType::Block,
        Some(other),
    ));
    lemma_resolve_no_match(es2, MsgType::Block, Some(other));
}

} // verus!
