//! Message types of the wire protocol and their mathematical views.
//!
//! Domain values (blocks, transactions, headers) are opaque units owned by
//! the blockchain-core collaborator: this layer carries them as plain bytes
//! of known length and never inspects their contents.

use vstd::prelude::*;

verus! {

/// Hard upper bound on a frame's declared body length: a declared length
/// above this is rejected before any allocation.
pub const MAX_BODY_LEN: u64 = 20_000_000;

/// Byte length of one serialized block header unit.
pub const BLOCK_HEADER_LEN: usize = 64;

/// Byte length of a block hash.
pub const HASH_LEN: usize = 32;

/// Byte length of a serialized socket address (IPv4 address and port).
pub const SOCK_ADDR_LEN: usize = 6;

/// The wire type tags, one per message shape. The set is closed: both the
/// encoder and the decoder enumerate it exhaustively.
#[derive(Clone, Copy, PartialEq, Eq, Structural, Debug)]
pub enum MsgType {
    Error,
    Hand,
    Shake,
    Ping,
    Pong,
    GetPeerAddrs,
    PeerAddrs,
    GetHeaders,
    Headers,
    GetBlock,
    Block,
    Transaction,
}

/// A block hash: an opaque 32-byte identifier.
#[derive(Clone, PartialEq, Eq, Debug)]
pub struct BlockHash {
    pub bytes: Vec<u8>,
}

impl View for BlockHash {
    type V = Seq<u8>;

    open spec fn view(&self) -> Seq<u8> {
        self.bytes@
    }
}

impl BlockHash {
    /// A well-formed hash holds exactly `HASH_LEN` bytes.
    pub open spec fn wf(&self) -> bool {
        self@.len() == HASH_LEN
    }

    /// Builds a hash from its raw bytes.
    pub fn from_bytes(bytes: Vec<u8>) -> (r: BlockHash)
        ensures
            r@ == bytes@,
    {
        BlockHash { bytes }
    }
}

/// An IPv4 socket address carried in peer-address messages.
#[derive(Clone, Copy, PartialEq, Eq, Structural, Debug)]
pub struct SockAddr {
    pub ip: u32,
    pub port: u16,
}

/// A block: its hash (as computed by the blockchain-core collaborator) and
/// its serialized payload. This layer never recomputes the hash.
#[derive(Clone, PartialEq, Eq, Debug)]
pub struct Block {
    pub hash: BlockHash,
    pub payload: Vec<u8>,
}

/// View of a block: hash bytes and payload bytes.
#[verifier::ext_equal]
pub struct BlockV {
    pub hash: Seq<u8>,
    pub payload: Seq<u8>,
}

impl View for Block {
    type V = BlockV;

    open spec fn view(&self) -> BlockV {
        BlockV { hash: self.hash@, payload: self.payload@ }
    }
}

/// A transaction: an opaque serialized payload.
#[derive(Clone, PartialEq, Eq, Debug)]
pub struct Transaction {
    pub payload: Vec<u8>,
}

impl View for Transaction {
    type V = Seq<u8>;

    open spec fn view(&self) -> Seq<u8> {
        self.payload@
    }
}

/// One serialized block header, a fixed-size opaque unit.
#[derive(Clone, PartialEq, Eq, Debug)]
pub struct BlockHeader {
    pub data: Vec<u8>,
}

impl View for BlockHeader {
    type V = Seq<u8>;

    open spec fn view(&self) -> Seq<u8> {
        self.data@
    }
}

impl BlockHeader {
    /// A well-formed header unit holds exactly `BLOCK_HEADER_LEN` bytes.
    pub open spec fn wf(&self) -> bool {
        self@.len() == BLOCK_HEADER_LEN
    }
}

/// First message of a connection: the initiator's identity and version.
#[derive(Clone, PartialEq, Eq, Debug)]
pub struct Hand {
    pub version: u32,
    pub capabilities: u32,
    pub sender_addr: SockAddr,
    pub total_difficulty: u64,
    pub user_agent: Vec<u8>,
}

/// View of a `Hand` message.
#[verifier::ext_equal]
pub struct HandV {
    pub version: u32,
    pub capabilities: u32,
    pub sender_addr: SockAddr,
    pub total_difficulty: u64,
    pub user_agent: Seq<u8>,
}

impl View for Hand {
    type V = HandV;

    open spec fn view(&self) -> HandV {
        HandV {
            version: self.version,
            capabilities: self.capabilities,
            sender_addr: self.sender_addr,
            total_difficulty: self.total_difficulty,
            user_agent: self.user_agent@,
        }
    }
}

/// Reply to a `Hand`: the acceptor's identity and version.
#[derive(Clone, PartialEq, Eq, Debug)]
pub struct Shake {
    pub version: u32,
    pub capabilities: u32,
    pub total_difficulty: u64,
    pub user_agent: Vec<u8>,
}

/// View of a `Shake` message.
#[verifier::ext_equal]
pub struct ShakeV {
    pub version: u32,
    pub capabilities: u32,
    pub total_difficulty: u64,
    pub user_agent: Seq<u8>,
}

impl View for Shake {
    type V = ShakeV;

    open spec fn view(&self) -> ShakeV {
        ShakeV {
            version: self.version,
            capabilities: self.capabilities,
            total_difficulty: self.total_difficulty,
            user_agent: self.user_agent@,
        }
    }
}

/// An error report from the remote peer: a code and a free-form message.
#[derive(Clone, PartialEq, Eq, Debug)]
pub struct PeerError {
    pub code: u32,
    pub message: Vec<u8>,
}

/// View of a `PeerError` message.
#[verifier::ext_equal]
pub struct PeerErrorV {
    pub code: u32,
    pub message: Seq<u8>,
}

impl View for PeerError {
    type V = PeerErrorV;

    open spec fn view(&self) -> PeerErrorV {
        PeerErrorV { code: self.code, message: self.message@ }
    }
}

/// A request for peer addresses filtered by a capability bitset.
#[derive(Clone, Copy, PartialEq, Eq, Structural, Debug)]
pub struct GetPeerAddrs {
    pub capabilities: u32,
}

/// A list of peer addresses.
#[derive(Clone, PartialEq, Eq, Debug)]
pub struct PeerAddrs {
    pub peers: Vec<SockAddr>,
}

impl View for PeerAddrs {
    type V = Seq<SockAddr>;

    open spec fn view(&self) -> Seq<SockAddr> {
        self.peers@
    }
}

/// An ordered list of block hashes locating a chain position.
#[derive(Clone, PartialEq, Eq, Debug)]
pub struct Locator {
    pub hashes: Vec<BlockHash>,
}

impl View for Locator {
    type V = Seq<Seq<u8>>;

    open spec fn view(&self) -> Seq<Seq<u8>> {
        self.hashes@.map(|i: int, h: BlockHash| h@)
    }
}

/// An ordered list of block header units.
#[derive(Clone, PartialEq, Eq, Debug)]
pub struct Headers {
    pub headers: Vec<BlockHeader>,
}

impl View for Headers {
    type V = Seq<Seq<u8>>;

    open spec fn view(&self) -> Seq<Seq<u8>> {
        self.headers@.map(|i: int, h: BlockHeader| h@)
    }
}

/// The closed tagged union of every message this layer carries. Each tag of
/// `MsgType` maps to exactly one body shape here.
#[derive(Clone, PartialEq, Eq, Debug)]
pub enum MsgBody {
    PeerError(PeerError),
    Hand(Hand),
    Shake(Shake),
    Ping,
    Pong,
    GetPeerAddrs(GetPeerAddrs),
    PeerAddrs(PeerAddrs),
    GetHeaders(Locator),
    Headers(Headers),
    GetBlock(BlockHash),
    Block(Block),
    Transaction(Transaction),
}

/// View of a message: the same tagged union over mathematical values.
#[verifier::ext_equal]
pub enum MsgBodyV {
    PeerError(PeerErrorV),
    Hand(HandV),
    Shake(ShakeV),
    Ping,
    Pong,
    GetPeerAddrs(GetPeerAddrs),
    PeerAddrs(Seq<SockAddr>),
    GetHeaders(Seq<Seq<u8>>),
    Headers(Seq<Seq<u8>>),
    GetBlock(Seq<u8>),
    Block(BlockV),
    Transaction(Seq<u8>),
}

impl View for MsgBody {
    type V = MsgBodyV;

    open spec fn view(&self) -> MsgBodyV {
        match self {
            MsgBody::PeerError(e) => MsgBodyV::PeerError(e@),
            MsgBody::Hand(h) => MsgBodyV::Hand(h@),
            MsgBody::Shake(s) => MsgBodyV::Shake(s@),
            MsgBody::Ping => MsgBodyV::Ping,
            MsgBody::Pong => MsgBodyV::Pong,
            MsgBody::GetPeerAddrs(g) => MsgBodyV::GetPeerAddrs(*g),
            MsgBody::PeerAddrs(p) => MsgBodyV::PeerAddrs(p@),
            MsgBody::GetHeaders(l) => MsgBodyV::GetHeaders(l@),
            MsgBody::Headers(h) => MsgBodyV::Headers(h@),
            MsgBody::GetBlock(h) => MsgBodyV::GetBlock(h@),
            MsgBody::Block(b) => MsgBodyV::Block(b@),
            MsgBody::Transaction(t) => MsgBodyV::Transaction(t@),
        }
    }
}

/// The type tag that a message is framed under.
pub open spec fn tag_of(m: MsgBodyV) -> MsgType {
    match m {
        MsgBodyV::PeerError(_) => MsgType::Error,
        MsgBodyV::Hand(_) => MsgType::Hand,
        MsgBodyV::Shake(_) => MsgType::Shake,
        MsgBodyV::Ping => MsgType::Ping,
        MsgBodyV::Pong => MsgType::Pong,
        MsgBodyV::GetPeerAddrs(_) => MsgType::GetPeerAddrs,
        MsgBodyV::PeerAddrs(_) => MsgType::PeerAddrs,
        MsgBodyV::GetHeaders(_) => MsgType::GetHeaders,
        MsgBodyV::Headers(_) => MsgType::Headers,
        MsgBodyV::GetBlock(_) => MsgType::GetBlock,
        MsgBodyV::Block(_) => MsgType::Block,
        MsgBodyV::Transaction(_) => MsgType::Transaction,
    }
}

impl MsgBody {
    /// The type tag this message is framed under.
    pub fn msg_type(&self) -> (r: MsgType)
        ensures
            r == tag_of(self@),
    {
        match self {
            MsgBody::PeerError(_) => MsgType::Error,
            MsgBody::Hand(_) => MsgType::Hand,
            MsgBody::Shake(_) => MsgType::Shake,
            MsgBody::Ping => MsgType::Ping,
            MsgBody::Pong => MsgType::Pong,
            MsgBody::GetPeerAddrs(_) => MsgType::GetPeerAddrs,
            MsgBody::PeerAddrs(_) => MsgType::PeerAddrs,
            MsgBody::GetHeaders(_) => MsgType::GetHeaders,
            MsgBody::Headers(_) => MsgType::Headers,
            MsgBody::GetBlock(_) => MsgType::GetBlock,
            MsgBody::Block(_) => MsgType::Block,
            MsgBody::Transaction(_) => MsgType::Transaction,
        }
    }
}

} // verus!
