use bytes::BytesMut;
use grin_p2p::codec::{decode_frame, encode_frame, CodecError, MsgCodec, FRAME_PREFIX_LEN};
use grin_p2p::msg::{
    Block, BlockHash, BlockHeader, GetPeerAddrs, Hand, Headers, Locator, MsgBody, PeerAddrs,
    PeerError, Shake, SockAddr, Transaction,
};

fn hash32(b: u8) -> BlockHash {
    BlockHash { bytes: vec![b; 32] }
}

fn header64(b: u8) -> BlockHeader {
    BlockHeader { data: vec![b; 64] }
}

fn round_trip(id: u64, msg: MsgBody) {
    let frame = encode_frame(id, &msg).expect("well-formed message must encode");
    let decoded = decode_frame(frame.as_slice()).expect("own frame must decode");
    let (got_id, got_msg, used) = decoded.expect("complete frame must be yielded");
    assert_eq!(got_id, id);
    assert_eq!(got_msg, msg);
    assert_eq!(used, frame.len());
}

#[test]
fn round_trip_ping_pong() {
    round_trip(7, MsgBody::Ping);
    round_trip(8, MsgBody::Pong);
}

#[test]
fn round_trip_hand() {
    round_trip(
        1,
        MsgBody::Hand(Hand {
            version: 1,
            capabilities: 0b101,
            sender_addr: SockAddr { ip: 0x7f000001, port: 13414 },
            total_difficulty: 250,
            user_agent: b"MW/Grin 0.1".to_vec(),
        }),
    );
}

#[test]
fn round_trip_shake() {
    round_trip(
        2,
        MsgBody::Shake(Shake {
            version: 1,
            capabilities: 7,
            total_difficulty: 1000,
            user_agent: b"MW/Grin 0.1".to_vec(),
        }),
    );
}

#[test]
fn round_trip_peer_error() {
    round_trip(3, MsgBody::PeerError(PeerError { code: 42, message: b"bad block".to_vec() }));
}

#[test]
fn round_trip_peer_addrs() {
    round_trip(4, MsgBody::GetPeerAddrs(GetPeerAddrs { capabilities: 15 }));
    round_trip(
        5,
        MsgBody::PeerAddrs(PeerAddrs {
            peers: vec![
                SockAddr { ip: 0x0a000001, port: 3414 },
                SockAddr { ip: 0x0a000002, port: 3415 },
            ],
        }),
    );
    round_trip(6, MsgBody::PeerAddrs(PeerAddrs { peers: vec![] }));
}

#[test]
fn round_trip_headers_messages() {
    round_trip(9, MsgBody::GetHeaders(Locator { hashes: vec![hash32(1), hash32(2)] }));
    round_trip(10, MsgBody::Headers(Headers { headers: vec![header64(3), header64(4)] }));
    round_trip(11, MsgBody::Headers(Headers { headers: vec![] }));
}

#[test]
fn round_trip_block_messages() {
    round_trip(12, MsgBody::GetBlock(hash32(9)));
    round_trip(
        13,
        MsgBody::Block(Block { hash: hash32(9), payload: vec![1, 2, 3, 4, 5] }),
    );
    round_trip(14, MsgBody::Transaction(Transaction { payload: vec![9, 9, 9] }));
    round_trip(15, MsgBody::Transaction(Transaction { payload: vec![] }));
}

#[test]
fn encode_rejects_malformed_hash() {
    let r = encode_frame(0, &MsgBody::GetBlock(BlockHash { bytes: vec![0; 31] }));
    assert_eq!(r, Err(CodecError::BadBody));
}

#[test]
fn encode_rejects_oversized_body() {
    let r = encode_frame(
        0,
        &MsgBody::Transaction(Transaction { payload: vec![0; 20_000_001] }),
    );
    assert_eq!(r, Err(CodecError::BadBody));
}

#[test]
fn decode_short_buffer_needs_more() {
    assert_eq!(decode_frame(&[]), Ok(None));
    assert_eq!(decode_frame(&[0x1e]), Ok(None));
    assert_eq!(decode_frame(&vec![0u8; FRAME_PREFIX_LEN - 1]), Ok(None));
}

#[test]
fn decode_truncated_body_needs_more_and_consumes_nothing() {
    let msg = MsgBody::Transaction(Transaction { payload: vec![7; 40] });
    let frame = encode_frame(3, &msg).unwrap();
    // every strict prefix asks for more data, never errs
    for n in 0..frame.len() {
        assert_eq!(decode_frame(&frame[..n]), Ok(None), "prefix of {} bytes", n);
    }
    // through the buffered codec the buffer must stay untouched
    let codec = MsgCodec;
    let mut buf = BytesMut::new();
    buf.extend_from_slice(&frame[..frame.len() - 1]);
    let before = buf.len();
    assert_eq!(codec.decode(&mut buf), Ok(None));
    assert_eq!(buf.len(), before);
}

#[test]
fn decode_unknown_tag_is_error_and_buffer_untouched() {
    let mut raw = vec![0x1e, 0xc5, 99u8];
    raw.extend_from_slice(&0u64.to_be_bytes());
    raw.extend_from_slice(&5u64.to_be_bytes());
    assert_eq!(decode_frame(raw.as_slice()), Err(CodecError::UnknownType));

    let codec = MsgCodec;
    let mut buf = BytesMut::new();
    buf.extend_from_slice(&raw);
    let before = buf.clone();
    assert_eq!(codec.decode(&mut buf), Err(CodecError::UnknownType));
    assert_eq!(&buf[..], &before[..]);
}

#[test]
fn decode_bad_magic_is_error() {
    let mut raw = vec![0x00, 0xc5, 3u8];
    raw.extend_from_slice(&0u64.to_be_bytes());
    raw.extend_from_slice(&0u64.to_be_bytes());
    assert_eq!(decode_frame(raw.as_slice()), Err(CodecError::BadMagic));
}

#[test]
fn decode_oversized_declared_length_is_error() {
    let mut raw = vec![0x1e, 0xc5, 11u8];
    raw.extend_from_slice(&20_000_001u64.to_be_bytes());
    raw.extend_from_slice(&0u64.to_be_bytes());
    assert_eq!(decode_frame(raw.as_slice()), Err(CodecError::TooLarge));
}

#[test]
fn decode_misshapen_body_is_error() {
    // a Ping frame whose declared body is one byte long
    let mut raw = vec![0x1e, 0xc5, 3u8];
    raw.extend_from_slice(&1u64.to_be_bytes());
    raw.extend_from_slice(&0u64.to_be_bytes());
    raw.push(0xff);
    assert_eq!(decode_frame(raw.as_slice()), Err(CodecError::BadBody));
}

#[test]
fn byte_at_a_time_never_errs_and_completes_once() {
    let msg = MsgBody::Hand(Hand {
        version: 1,
        capabilities: 1,
        sender_addr: SockAddr { ip: 1, port: 2 },
        total_difficulty: 3,
        user_agent: b"agent".to_vec(),
    });
    let frame = encode_frame(77, &msg).unwrap();
    let codec = MsgCodec;
    let mut buf = BytesMut::new();
    for (i, byte) in frame.iter().enumerate() {
        buf.extend_from_slice(&[*byte]);
        let r = codec.decode(&mut buf).expect("a valid frame's prefix never errs");
        if i + 1 < frame.len() {
            assert!(r.is_none(), "no frame before the final byte (at byte {})", i);
        } else {
            let (id, got) = r.expect("the final byte completes the frame");
            assert_eq!(id, 77);
            assert_eq!(got, msg);
        }
    }
    assert_eq!(buf.len(), 0);
}

#[test]
fn buffered_codec_keeps_following_bytes() {
    let codec = MsgCodec;
    let mut buf = BytesMut::new();
    codec.encode(42, &MsgBody::Ping, &mut buf).unwrap();
    let tail = [0xaa, 0xbb, 0xcc];
    buf.extend_from_slice(&tail);
    let (id, msg) = codec.decode(&mut buf).unwrap().unwrap();
    assert_eq!(id, 42);
    assert_eq!(msg, MsgBody::Ping);
    assert_eq!(&buf[..], &tail[..]);
}

#[test]
fn two_frames_decode_in_order() {
    let codec = MsgCodec;
    let mut buf = BytesMut::new();
    codec.encode(1, &MsgBody::Ping, &mut buf).unwrap();
    codec
        .encode(2, &MsgBody::Transaction(Transaction { payload: vec![5, 6] }), &mut buf)
        .unwrap();
    assert_eq!(codec.decode(&mut buf), Ok(Some((1, MsgBody::Ping))));
    assert_eq!(
        codec.decode(&mut buf),
        Ok(Some((2, MsgBody::Transaction(Transaction { payload: vec![5, 6] }))))
    );
    assert_eq!(codec.decode(&mut buf), Ok(None));
}

#[test]
fn wire_layout_is_fixed() {
    let frame = encode_frame(0x0102030405060708, &MsgBody::Ping).unwrap();
    assert_eq!(frame.len(), 19);
    assert_eq!(frame[0], 0x1e);
    assert_eq!(frame[1], 0xc5);
    assert_eq!(frame[2], 3); // the Ping tag
    assert_eq!(&frame[3..11], &0u64.to_be_bytes());
    assert_eq!(&frame[11..19], &0x0102030405060708u64.to_be_bytes());
}
