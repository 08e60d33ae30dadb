use grin_p2p::codec::{decode_frame, encode_frame, CodecError, MsgCodec};
use grin_p2p::handshake::{Handshake, HandshakeState, LocalNode};
use grin_p2p::msg::{
    Block, BlockHash, BlockHeader, Hand, MsgBody, MsgType, Shake, SockAddr, Transaction,
};
use grin_p2p::protocol::{AdapterError, NetAdapter, ProtocolError, ProtocolV1};

fn hash32(b: u8) -> BlockHash {
    BlockHash { bytes: vec![b; 32] }
}

fn local_node() -> LocalNode {
    LocalNode {
        version: 1,
        capabilities: 0b111,
        total_difficulty: 500,
        user_agent: b"MW/Grin 0.1".to_vec(),
    }
}

fn hand(version: u32) -> MsgBody {
    MsgBody::Hand(Hand {
        version,
        capabilities: 1,
        sender_addr: SockAddr { ip: 0x7f000001, port: 3414 },
        total_difficulty: 250,
        user_agent: b"peer".to_vec(),
    })
}

struct MockAdapter {
    known_block: Option<Block>,
    known_headers: Option<Vec<BlockHeader>>,
    known_peers: Option<Vec<SockAddr>>,
    fail_callbacks: bool,
    blocks_received: usize,
    txs_received: usize,
    headers_received: usize,
    addrs_received: usize,
}

impl MockAdapter {
    fn new() -> MockAdapter {
        MockAdapter {
            known_block: None,
            known_headers: None,
            known_peers: None,
            fail_callbacks: false,
            blocks_received: 0,
            txs_received: 0,
            headers_received: 0,
            addrs_received: 0,
        }
    }
}

impl NetAdapter for MockAdapter {
    fn transaction_received(&mut self, _tx: Transaction) -> Result<(), AdapterError> {
        if self.fail_callbacks {
            return Err(AdapterError);
        }
        self.txs_received += 1;
        Ok(())
    }

    fn block_received(&mut self, _b: Block) -> Result<(), AdapterError> {
        if self.fail_callbacks {
            return Err(AdapterError);
        }
        self.blocks_received += 1;
        Ok(())
    }

    fn headers_received(&mut self, _headers: Vec<BlockHeader>) -> Result<(), AdapterError> {
        if self.fail_callbacks {
            return Err(AdapterError);
        }
        self.headers_received += 1;
        Ok(())
    }

    fn peer_addrs_received(&mut self, _peers: Vec<SockAddr>) -> Result<(), AdapterError> {
        if self.fail_callbacks {
            return Err(AdapterError);
        }
        self.addrs_received += 1;
        Ok(())
    }

    fn get_block(&mut self, h: BlockHash) -> Option<Block> {
        match &self.known_block {
            Some(b) if b.hash == h => Some(Block {
                hash: BlockHash { bytes: b.hash.bytes.clone() },
                payload: b.payload.clone(),
            }),
            _ => None,
        }
    }

    fn locate_headers(&mut self, _locator: Vec<BlockHash>) -> Option<Vec<BlockHeader>> {
        self.known_headers.clone()
    }

    fn find_peer_addrs(&mut self, _capabilities: u32) -> Option<Vec<SockAddr>> {
        self.known_peers.clone()
    }
}

#[test]
fn handshake_accepts_matching_version() {
    let cfg = local_node();
    let mut hs = Handshake::new();
    let reply = hs.process_first_frame(&cfg, 5, &hand(1));
    let (id, msg) = reply.expect("an accepted hand earns exactly one reply");
    assert_eq!(id, 5);
    assert_eq!(
        msg,
        MsgBody::Shake(Shake {
            version: 1,
            capabilities: 0b111,
            total_difficulty: 500,
            user_agent: b"MW/Grin 0.1".to_vec(),
        })
    );
    match hs.state {
        HandshakeState::Established(info) => {
            assert_eq!(info.version, 1);
            assert_eq!(info.capabilities, 1);
            assert_eq!(info.user_agent, b"peer".to_vec());
            assert_eq!(info.addr, SockAddr { ip: 0x7f000001, port: 3414 });
            assert_eq!(info.total_difficulty, 250);
        },
        _ => panic!("expected the established state"),
    }
}

#[test]
fn handshake_rejects_version_mismatch() {
    let cfg = local_node();
    let mut hs = Handshake::new();
    let reply = hs.process_first_frame(&cfg, 0, &hand(2));
    assert!(reply.is_none());
    assert!(matches!(hs.state, HandshakeState::Failed));
}

#[test]
fn handshake_rejects_non_hand_first_message() {
    let cfg = local_node();
    let mut hs = Handshake::new();
    let reply = hs.process_first_frame(&cfg, 0, &MsgBody::Ping);
    assert!(reply.is_none());
    assert!(matches!(hs.state, HandshakeState::Failed));
}

#[test]
fn send_ping_emits_frame_and_expects_pong() {
    let mut p = ProtocolV1::new();
    let frame = p.send_ping().unwrap();
    let (id, msg, used) = decode_frame(frame.as_slice()).unwrap().unwrap();
    assert_eq!(id, 0);
    assert_eq!(msg, MsgBody::Ping);
    assert_eq!(used, frame.len());
    assert_eq!(p.expected_responses, vec![(MsgType::Pong, None)]);
    assert_eq!(p.transmitted_bytes(), (frame.len() as u64, 0));
}

#[test]
fn pong_resolves_ping_expectation() {
    let mut p = ProtocolV1::new();
    let mut a = MockAdapter::new();
    p.send_ping().unwrap();
    let replies = p.handle_message(&mut a, 0, MsgBody::Pong).unwrap();
    assert!(replies.is_empty());
    assert!(p.expected_responses.is_empty());
}

#[test]
fn ping_is_answered_with_pong() {
    let mut p = ProtocolV1::new();
    let mut a = MockAdapter::new();
    let replies = p.handle_message(&mut a, 9, MsgBody::Ping).unwrap();
    assert_eq!(replies.len(), 1);
    let (id, msg, _) = decode_frame(replies[0].as_slice()).unwrap().unwrap();
    assert_eq!(id, 9);
    assert_eq!(msg, MsgBody::Pong);
}

#[test]
fn block_request_resolved_by_matching_hash_only() {
    let mut p = ProtocolV1::new();
    let mut a = MockAdapter::new();
    let wanted = hash32(0xaa);
    p.send_block_request(BlockHash { bytes: wanted.bytes.clone() }).unwrap();
    assert_eq!(p.expected_responses, vec![(MsgType::Block, Some(hash32(0xaa)))]);

    // an unrelated block leaves the expectation pending
    let unrelated = MsgBody::Block(Block { hash: hash32(0xbb), payload: vec![1] });
    p.handle_message(&mut a, 1, unrelated).unwrap();
    assert_eq!(p.expected_responses, vec![(MsgType::Block, Some(hash32(0xaa)))]);

    // the requested block resolves it
    let wanted_block = MsgBody::Block(Block { hash: hash32(0xaa), payload: vec![2] });
    p.handle_message(&mut a, 2, wanted_block).unwrap();
    assert!(p.expected_responses.is_empty());
    assert_eq!(a.blocks_received, 2);
}

#[test]
fn get_block_answered_when_known_and_silence_when_not() {
    let mut p = ProtocolV1::new();
    let mut a = MockAdapter::new();
    let b = Block { hash: hash32(1), payload: vec![10, 20] };
    a.known_block = Some(Block {
        hash: BlockHash { bytes: b.hash.bytes.clone() },
        payload: b.payload.clone(),
    });

    let replies = p.handle_message(&mut a, 4, MsgBody::GetBlock(hash32(1))).unwrap();
    assert_eq!(replies.len(), 1);
    let (id, msg, _) = decode_frame(replies[0].as_slice()).unwrap().unwrap();
    assert_eq!(id, 4);
    assert_eq!(msg, MsgBody::Block(b));

    // absence is answered by silence, not an error
    let replies = p.handle_message(&mut a, 5, MsgBody::GetBlock(hash32(2))).unwrap();
    assert!(replies.is_empty());
}

#[test]
fn adapter_failure_surfaces_and_leaves_state_alone() {
    let mut p = ProtocolV1::new();
    let mut a = MockAdapter::new();
    a.fail_callbacks = true;
    p.send_ping().unwrap();
    let before = p.transmitted_bytes();
    let r = p.handle_message(&mut a, 0, MsgBody::Transaction(Transaction { payload: vec![1] }));
    assert_eq!(r, Err(ProtocolError::Adapter));
    assert_eq!(p.transmitted_bytes(), before);
    assert_eq!(p.expected_responses, vec![(MsgType::Pong, None)]);
}

#[test]
fn unhandled_kinds_are_ignored_without_error() {
    let mut p = ProtocolV1::new();
    let mut a = MockAdapter::new();
    let replies = p.handle_message(&mut a, 0, hand(1)).unwrap();
    assert!(replies.is_empty());
    let replies = p
        .handle_message(
            &mut a,
            0,
            MsgBody::Shake(Shake {
                version: 1,
                capabilities: 0,
                total_difficulty: 0,
                user_agent: vec![],
            }),
        )
        .unwrap();
    assert!(replies.is_empty());
}

#[test]
fn transmitted_bytes_count_complete_frames_exactly() {
    let mut p = ProtocolV1::new();
    let mut a = MockAdapter::new();
    assert_eq!(p.transmitted_bytes(), (0, 0));

    let f1 = p.send_ping().unwrap();
    let (s1, r1) = p.transmitted_bytes();
    assert_eq!((s1, r1), (f1.len() as u64, 0));

    let f2 = p
        .send_transaction(Transaction { payload: vec![1, 2, 3] })
        .unwrap();
    let (s2, r2) = p.transmitted_bytes();
    assert_eq!((s2, r2), ((f1.len() + f2.len()) as u64, 0));
    assert!(s2 >= s1, "the sent counter never decreases");

    // replies produced by dispatch count as sent frames too
    let replies = p.handle_message(&mut a, 3, MsgBody::Ping).unwrap();
    let (s3, _) = p.transmitted_bytes();
    assert_eq!(s3, s2 + replies[0].len() as u64);

    // received bytes count the complete inbound frames the caller records
    let inbound = encode_frame(0, &MsgBody::Pong).unwrap();
    p.record_received(&inbound);
    let (_, r4) = p.transmitted_bytes();
    assert_eq!(r4, inbound.len() as u64);
}

#[test]
fn failed_send_counts_nothing() {
    let mut p = ProtocolV1::new();
    let r = p.send_block_request(BlockHash { bytes: vec![0; 31] });
    assert_eq!(r, Err(CodecError::BadBody));
    assert_eq!(p.transmitted_bytes(), (0, 0));
    assert!(p.expected_responses.is_empty());
}

#[test]
fn close_marks_the_connection() {
    let mut p = ProtocolV1::new();
    assert!(!p.closed);
    p.close();
    assert!(p.closed);
}

#[test]
fn client_server_session() {
    // the server side of a connection: gate first, then dispatch
    let cfg = local_node();
    let codec = MsgCodec;
    let mut server_in = bytes::BytesMut::new();
    let mut server_out = bytes::BytesMut::new();
    let mut hs = Handshake::new();
    let mut engine = ProtocolV1::new();
    let mut adapter = MockAdapter::new();
    let b1 = Block { hash: hash32(0x11), payload: vec![42; 8] };
    adapter.known_block = Some(Block {
        hash: BlockHash { bytes: b1.hash.bytes.clone() },
        payload: b1.payload.clone(),
    });

    // client sends Hand{version: 1}; the server replies Shake{version: 1}
    codec.encode(1, &hand(1), &mut server_in).unwrap();
    let (id, first) = codec.decode(&mut server_in).unwrap().unwrap();
    let (rid, reply) = hs.process_first_frame(&cfg, id, &first).unwrap();
    assert!(matches!(hs.state, HandshakeState::Established(_)));
    codec.encode(rid, &reply, &mut server_out).unwrap();
    let (_, shake) = codec.decode(&mut server_out).unwrap().unwrap();
    match shake {
        MsgBody::Shake(s) => assert_eq!(s.version, 1),
        other => panic!("expected a shake, got {:?}", other),
    }

    // client sends Ping; the server replies Pong
    codec.encode(2, &MsgBody::Ping, &mut server_in).unwrap();
    let (id, msg) = codec.decode(&mut server_in).unwrap().unwrap();
    let replies = engine.handle_message(&mut adapter, id, msg).unwrap();
    assert_eq!(replies.len(), 1);
    let (pid, pong, _) = decode_frame(replies[0].as_slice()).unwrap().unwrap();
    assert_eq!((pid, pong), (2, MsgBody::Pong));

    // client asks for a known block; the server replies with it
    codec.encode(3, &MsgBody::GetBlock(hash32(0x11)), &mut server_in).unwrap();
    let (id, msg) = codec.decode(&mut server_in).unwrap().unwrap();
    let replies = engine.handle_message(&mut adapter, id, msg).unwrap();
    assert_eq!(replies.len(), 1);
    let (bid, block, _) = decode_frame(replies[0].as_slice()).unwrap().unwrap();
    assert_eq!(bid, 3);
    assert_eq!(block, MsgBody::Block(b1));

    // client asks for an unknown block; the server sends nothing
    codec.encode(4, &MsgBody::GetBlock(hash32(0x22)), &mut server_in).unwrap();
    let (id, msg) = codec.decode(&mut server_in).unwrap().unwrap();
    let replies = engine.handle_message(&mut adapter, id, msg).unwrap();
    assert!(replies.is_empty());
}

#[test]
fn malformed_adapter_block_is_a_serialization_error() {
    let mut p = ProtocolV1::new();
    // the adapter's block carries a hash of the wrong length, so the reply
    // cannot be framed
    struct AlwaysBad;
    impl NetAdapter for AlwaysBad {
        fn transaction_received(&mut self, _tx: Transaction) -> Result<(), AdapterError> {
            Ok(())
        }
        fn block_received(&mut self, _b: Block) -> Result<(), AdapterError> {
            Ok(())
        }
        fn headers_received(&mut self, _h: Vec<BlockHeader>) -> Result<(), AdapterError> {
            Ok(())
        }
        fn peer_addrs_received(&mut self, _p: Vec<SockAddr>) -> Result<(), AdapterError> {
            Ok(())
        }
        fn get_block(&mut self, _h: BlockHash) -> Option<Block> {
            Some(Block { hash: BlockHash { bytes: vec![0; 31] }, payload: vec![] })
        }
        fn locate_headers(&mut self, _l: Vec<BlockHash>) -> Option<Vec<BlockHeader>> {
            None
        }
        fn find_peer_addrs(&mut self, _c: u32) -> Option<Vec<SockAddr>> {
            None
        }
    }
    let mut bad_adapter = AlwaysBad;
    let before = p.transmitted_bytes();
    let r = p.handle_message(&mut bad_adapter, 1, MsgBody::GetBlock(hash32(0)));
    assert_eq!(r, Err(ProtocolError::Serialization));
    assert_eq!(p.transmitted_bytes(), before);
}

#[test]
fn header_request_and_reply_flow() {
    let mut p = ProtocolV1::new();
    let mut a = MockAdapter::new();
    let locator = vec![hash32(1), hash32(2)];
    let frame = p.send_header_request(locator).unwrap();
    let (_, msg, _) = decode_frame(frame.as_slice()).unwrap().unwrap();
    assert!(matches!(msg, MsgBody::GetHeaders(_)));
    assert_eq!(p.expected_responses, vec![(MsgType::Headers, None)]);

    // a headers reply resolves the expectation through the adapter
    let headers = vec![grin_p2p::msg::Headers { headers: vec![] }];
    let _ = headers;
    let reply = MsgBody::Headers(grin_p2p::msg::Headers {
        headers: vec![BlockHeader { data: vec![7; 64] }],
    });
    let replies = p.handle_message(&mut a, 0, reply).unwrap();
    assert!(replies.is_empty());
    assert!(p.expected_responses.is_empty());
    assert_eq!(a.headers_received, 1);
}

#[test]
fn get_headers_answered_when_known_and_silence_when_not() {
    let mut p = ProtocolV1::new();
    let mut a = MockAdapter::new();
    let req = MsgBody::GetHeaders(grin_p2p::msg::Locator { hashes: vec![hash32(5)] });
    let replies = p.handle_message(&mut a, 6, req).unwrap();
    assert!(replies.is_empty(), "nothing located is answered by silence");

    a.known_headers = Some(vec![BlockHeader { data: vec![9; 64] }]);
    let req = MsgBody::GetHeaders(grin_p2p::msg::Locator { hashes: vec![hash32(5)] });
    let replies = p.handle_message(&mut a, 7, req).unwrap();
    assert_eq!(replies.len(), 1);
    let (id, msg, _) = decode_frame(replies[0].as_slice()).unwrap().unwrap();
    assert_eq!(id, 7);
    assert_eq!(
        msg,
        MsgBody::Headers(grin_p2p::msg::Headers { headers: vec![BlockHeader { data: vec![9; 64] }] })
    );
}

#[test]
fn peer_request_and_reply_flow() {
    let mut p = ProtocolV1::new();
    let mut a = MockAdapter::new();
    let frame = p.send_peer_request(0b11).unwrap();
    let (_, msg, _) = decode_frame(frame.as_slice()).unwrap().unwrap();
    assert_eq!(msg, MsgBody::GetPeerAddrs(grin_p2p::msg::GetPeerAddrs { capabilities: 0b11 }));
    assert_eq!(p.expected_responses, vec![(MsgType::PeerAddrs, None)]);

    // the server side answers a peer-address query when it knows peers
    a.known_peers = Some(vec![SockAddr { ip: 1, port: 2 }]);
    let req = MsgBody::GetPeerAddrs(grin_p2p::msg::GetPeerAddrs { capabilities: 0b11 });
    let replies = p.handle_message(&mut a, 8, req).unwrap();
    assert_eq!(replies.len(), 1);

    // and an inbound address list resolves the pending expectation
    let reply = MsgBody::PeerAddrs(grin_p2p::msg::PeerAddrs {
        peers: vec![SockAddr { ip: 1, port: 2 }],
    });
    let replies = p.handle_message(&mut a, 0, reply).unwrap();
    assert!(replies.is_empty());
    assert!(p.expected_responses.is_empty());
    assert_eq!(a.addrs_received, 1);
}

#[test]
fn send_block_and_transaction_register_no_expectation() {
    let mut p = ProtocolV1::new();
    let b = Block { hash: hash32(1), payload: vec![1, 2] };
    let f1 = p.send_block(b).unwrap();
    let f2 = p.send_transaction(Transaction { payload: vec![3] }).unwrap();
    assert!(p.expected_responses.is_empty());
    assert_eq!(p.transmitted_bytes(), ((f1.len() + f2.len()) as u64, 0));
    // ids are fresh per frame
    let (id1, _, _) = decode_frame(f1.as_slice()).unwrap().unwrap();
    let (id2, _, _) = decode_frame(f2.as_slice()).unwrap().unwrap();
    assert_eq!((id1, id2), (0, 1));
}

#[test]
fn get_headers_empty_result_is_silence() {
    // an empty located result is answered by silence, exactly like absence
    let mut p = ProtocolV1::new();
    let mut a = MockAdapter::new();
    a.known_headers = Some(vec![]);
    let req = MsgBody::GetHeaders(grin_p2p::msg::Locator { hashes: vec![hash32(5)] });
    let before = p.transmitted_bytes();
    let replies = p.handle_message(&mut a, 12, req).unwrap();
    assert!(replies.is_empty());
    assert_eq!(p.transmitted_bytes(), before);
}

#[test]
fn find_peer_addrs_empty_result_still_replies() {
    // a present-but-empty address list is still a reply
    let mut p = ProtocolV1::new();
    let mut a = MockAdapter::new();
    a.known_peers = Some(vec![]);
    let req = MsgBody::GetPeerAddrs(grin_p2p::msg::GetPeerAddrs { capabilities: 1 });
    let replies = p.handle_message(&mut a, 13, req).unwrap();
    assert_eq!(replies.len(), 1);
    let (id, msg, _) = decode_frame(replies[0].as_slice()).unwrap().unwrap();
    assert_eq!(id, 13);
    assert_eq!(msg, MsgBody::PeerAddrs(grin_p2p::msg::PeerAddrs { peers: vec![] }));
}
