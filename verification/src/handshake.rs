//! Connection handshake: a one-shot gate run once per new connection,
//! before any other traffic is processed.
//!
//! The first frame must be a `Hand` whose protocol version equals the local
//! version. Then the peer's identity is captured, exactly one `Shake` reply
//! is produced, and the connection is established. Any other first message,
//! or a version mismatch, fails the handshake; no reply is produced and no
//! further frames may be processed.

use vstd::prelude::*;

use crate::msg::{HandV, MsgBody, MsgBodyV, Shake, ShakeV, SockAddr};
use crate::ser::copy_bytes;

verus! {

/// The local node's identity, advertised in its `Shake` reply.
#[derive(Clone, PartialEq, Eq, Debug)]
pub struct LocalNode {
    pub version: u32,
    pub capabilities: u32,
    pub total_difficulty: u64,
    pub user_agent: Vec<u8>,
}

/// View of the local node's identity.
#[verifier::ext_equal]
pub struct LocalNodeV {
    pub version: u32,
    pub capabilities: u32,
    pub total_difficulty: u64,
    pub user_agent: Seq<u8>,
}

impl View for LocalNode {
    type V = LocalNodeV;

    open spec fn view(&self) -> LocalNodeV {
        LocalNodeV {
            version: self.version,
            capabilities: self.capabilities,
            total_difficulty: self.total_difficulty,
            user_agent: self.user_agent@,
        }
    }
}

/// A peer's identity, captured once from its verified `Hand` and immutable
/// for the connection's lifetime.
#[derive(Clone, PartialEq, Eq, Debug)]
pub struct PeerInfo {
    pub capabilities: u32,
    pub user_agent: Vec<u8>,
    pub addr: SockAddr,
    pub version: u32,
    pub total_difficulty: u64,
}

/// View of a peer's identity.
#[verifier::ext_equal]
pub struct PeerInfoV {
    pub capabilities: u32,
    pub user_agent: Seq<u8>,
    pub addr: SockAddr,
    pub version: u32,
    pub total_difficulty: u64,
}

impl View for PeerInfo {
    type V = PeerInfoV;

    open spec fn view(&self) -> PeerInfoV {
        PeerInfoV {
            capabilities: self.capabilities,
            user_agent: self.user_agent@,
            addr: self.addr,
            version: self.version,
            total_difficulty: self.total_difficulty,
        }
    }
}

/// The states of the handshake gate.
pub enum HandshakeState {
    AwaitingHandshake,
    Established(PeerInfo),
    Failed,
}

/// View of a handshake state.
#[verifier::ext_equal]
pub enum HandshakeStateV {
    AwaitingHandshake,
    Established(PeerInfoV),
    Failed,
}

impl View for HandshakeState {
    type V = HandshakeStateV;

    open spec fn view(&self) -> HandshakeStateV {
        match self {
            HandshakeState::AwaitingHandshake => HandshakeStateV::AwaitingHandshake,
            HandshakeState::Established(p) => HandshakeStateV::Established(p@),
            HandshakeState::Failed => HandshakeStateV::Failed,
        }
    }
}

/// Whether a first message opens the connection: a `Hand` whose protocol
/// version equals ours.
pub open spec fn hand_accepted(cfg: LocalNodeV, m: MsgBodyV) -> bool {
    m matches MsgBodyV::Hand(h) && h.version == cfg.version
}

/// The peer identity captured from an accepted `Hand`.
pub open spec fn peer_info_of(h: HandV) -> PeerInfoV {
    PeerInfoV {
        capabilities: h.capabilities,
        user_agent: h.user_agent,
        addr: h.sender_addr,
        version: h.version,
        total_difficulty: h.total_difficulty,
    }
}

/// The `Shake` the local node replies with on an accepted `Hand`.
pub open spec fn shake_reply_of(cfg: LocalNodeV) -> MsgBodyV {
    MsgBodyV::Shake(
        ShakeV {
            version: cfg.version,
            capabilities: cfg.capabilities,
            total_difficulty: cfg.total_difficulty,
            user_agent: cfg.user_agent,
        },
    )
}

/// The handshake gate of one connection. It consumes the connection's first
/// frame exactly once: from `AwaitingHandshake` it moves to `Established`
/// or `Failed` and never back.
pub struct Handshake {
    pub state: HandshakeState,
}

impl Handshake {
    /// A fresh gate, awaiting the connection's first frame.
    pub fn new() -> (r: Handshake)
        ensures
            r.state@ == HandshakeStateV::AwaitingHandshake,
    {
        Handshake { state: HandshakeState::AwaitingHandshake }
    }

    /// Consumes the connection's opening message. An acceptable `Hand`
    /// earns a single `Shake` reply under the request id it arrived with,
    /// and the `Established` state captures the peer's identity; anything
    /// else earns no reply and the `Failed` state.
    pub fn process_first_frame(&mut self, cfg: &LocalNode, id: u64, first: &MsgBody) -> (r: Option<
        (u64, MsgBody),
    >)
        requires
            old(self).state@ == HandshakeStateV::AwaitingHandshake,
        ensures
            ({
                match first@ {
                    MsgBodyV::Hand(h) => if h.version == cfg@.version {
                        &&& final(self).state@ == HandshakeStateV::Established(peer_info_of(h))
                        &&& r matches Some(rep) && rep.0 == id && rep.1@ == shake_reply_of(cfg@)
                    } else {
                        &&& final(self).state@ == HandshakeStateV::Failed
                        &&& r is None
                    },
                    _ => {
                        &&& final(self).state@ == HandshakeStateV::Failed
                        &&& r is None
                    },
                }
            }),
    {
        match first {
            MsgBody::Hand(h) => {
                if h.version == cfg.version {
                    let info = PeerInfo {
                        capabilities: h.capabilities,
                        user_agent: copy_bytes(&h.user_agent),
                        addr: h.sender_addr,
                        version: h.version,
                        total_difficulty: h.total_difficulty,
                    };
                    self.state = HandshakeState::Established(info);
                    let shake = Shake {
                        version: cfg.version,
                        capabilities: cfg.capabilities,
                        total_difficulty: cfg.total_difficulty,
                        user_agent: copy_bytes(&cfg.user_agent),
                    };
                    Some((id, MsgBody::Shake(shake)))
                } else {
                    self.state = HandshakeState::Failed;
                    None
                }
            },
            _ => {
                self.state = HandshakeState::Failed;
                None
            },
        }
    }
}

} // verus!
