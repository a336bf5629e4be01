//! The wire pieces on their own: message keys, the CBOR codec, the
//! gateway's cursor arithmetic and frame building.

use ic_websocket::cbor::{
    decode_app_message, decode_client_message, decode_first_frame, decode_first_message,
    decode_websocket_message, encode_app_message, encode_client_message, encode_first_frame,
    encode_first_message, encode_websocket_message,
};
use ic_websocket::gateway::{handshake_step, parse_key_nonce, poll_step, GatewayServer};
use ic_websocket::keys::{format_nonce, make_key};
use ic_websocket::types::{
    AppMessage, CertMessages, ClientMessage, EncodedMessage, FirstMessage, WebsocketMessage,
};

#[test]
fn key_format_is_twenty_digit_zero_padded() {
    assert_eq!(format_nonce(16), "00000000000000000016");
    assert_eq!(format_nonce(0), "00000000000000000000");
    assert_eq!(format_nonce(u64::MAX), "18446744073709551615");
    let key = make_key(&String::from("gw1"), 16);
    assert_eq!(key, "gw1_00000000000000000016");
}

#[test]
fn key_order_matches_nonce_order() {
    let a = make_key(&String::from("gw"), 9);
    let b = make_key(&String::from("gw"), 10);
    let c = make_key(&String::from("gw"), 100);
    assert!(a < b);
    assert!(b < c);
}

#[test]
fn parse_key_nonce_inverts_make_key() {
    let key = make_key(&String::from("aaaaa-aa"), 12345);
    assert_eq!(parse_key_nonce(&key), Some(12345));
    let key = make_key(&String::from("g_w"), 16);
    assert_eq!(parse_key_nonce(&key), Some(16));
}

#[test]
fn parse_key_nonce_rejects_malformed_keys() {
    assert_eq!(parse_key_nonce(&String::from("short")), None);
    assert_eq!(parse_key_nonce(&String::from("gw-0000000000000000001x")), None);
    assert_eq!(parse_key_nonce(&String::from("gw00000000000000000016x")), None);
    // 21 digits after the underscore: the char before the last 20 is a digit
    assert_eq!(parse_key_nonce(&String::from("gw_99999999999999999999")), None);
}

#[test]
fn websocket_message_round_trips() {
    let m = WebsocketMessage {
        client_id: 16,
        sequence_num: 3,
        timestamp: 1_700_000_000_000_000_000,
        message: vec![1, 2, 3, 255],
    };
    let bytes = encode_websocket_message(&m);
    // self-describe tag present
    assert_eq!(&bytes[0..3], &[0xd9, 0xd9, 0xf7]);
    let back = decode_websocket_message(&bytes).expect("decodes");
    assert_eq!(back.client_id, 16);
    assert_eq!(back.sequence_num, 3);
    assert_eq!(back.timestamp, 1_700_000_000_000_000_000);
    assert_eq!(back.message, vec![1, 2, 3, 255]);
    // the tag may also be absent
    let untagged = bytes[3..].to_vec();
    let back2 = decode_websocket_message(&untagged).expect("decodes untagged");
    assert_eq!(back2.client_id, 16);
    // trailing garbage is rejected
    let mut longer = bytes.clone();
    longer.push(0);
    assert!(decode_websocket_message(&longer).is_none());
}

#[test]
fn websocket_message_matches_serde_cbor() {
    let m = WebsocketMessage {
        client_id: 300,
        sequence_num: 0,
        timestamp: 42,
        message: vec![9, 8, 7],
    };
    let bytes = encode_websocket_message(&m);
    let v: serde_cbor::Value = serde_cbor::from_slice(&bytes).expect("serde_cbor accepts");
    match v {
        serde_cbor::Value::Map(map) => {
            let key = serde_cbor::Value::Text(String::from("client_id"));
            assert_eq!(map.get(&key), Some(&serde_cbor::Value::Integer(300)));
            let key = serde_cbor::Value::Text(String::from("sequence_num"));
            assert_eq!(map.get(&key), Some(&serde_cbor::Value::Integer(0)));
            let key = serde_cbor::Value::Text(String::from("timestamp"));
            assert_eq!(map.get(&key), Some(&serde_cbor::Value::Integer(42)));
            let key = serde_cbor::Value::Text(String::from("message"));
            assert_eq!(map.get(&key), Some(&serde_cbor::Value::Bytes(vec![9, 8, 7])));
        },
        other => panic!("expected a map, got {:?}", other),
    }
}

#[test]
fn integers_round_trip_at_every_width() {
    for v in [
        0u64,
        23,
        24,
        255,
        256,
        65535,
        65536,
        16_777_216,
        4_294_967_295,
        4_294_967_296,
        u64::MAX,
    ] {
        let m = WebsocketMessage {
            client_id: v,
            sequence_num: v,
            timestamp: v,
            message: vec![],
        };
        let bytes = encode_websocket_message(&m);
        let back = decode_websocket_message(&bytes).expect("decodes");
        assert_eq!(back.client_id, v);
        assert_eq!(back.sequence_num, v);
        assert_eq!(back.timestamp, v);
        // serde_cbor reads the same value
        let parsed: serde_cbor::Value = serde_cbor::from_slice(&bytes).expect("serde_cbor");
        if let serde_cbor::Value::Map(map) = parsed {
            let key = serde_cbor::Value::Text(String::from("timestamp"));
            assert_eq!(map.get(&key), Some(&serde_cbor::Value::Integer(v as i128)));
        } else {
            panic!("expected a map");
        }
    }
}

#[test]
fn client_message_and_first_message_round_trip() {
    let env = ClientMessage { val: vec![1, 2, 3], sig: vec![4, 5, 6] };
    let bytes = encode_client_message(&env);
    let back = decode_client_message(&bytes).expect("decodes");
    assert_eq!(back.val, vec![1, 2, 3]);
    assert_eq!(back.sig, vec![4, 5, 6]);

    let first = FirstMessage { client_id: 16, canister_id: b"aaaaa-aa".to_vec() };
    let bytes = encode_first_message(&first);
    let back = decode_first_message(&bytes).expect("decodes");
    assert_eq!(back.client_id, 16);
    assert_eq!(back.canister_id, b"aaaaa-aa".to_vec());

    let bytes = encode_first_frame(&vec![1, 1], &vec![2, 2]);
    let back = decode_first_frame(&bytes).expect("decodes");
    assert_eq!(back.0, vec![1, 1]);
    assert_eq!(back.1, vec![2, 2]);

    let app = AppMessage { text: b"ping".to_vec() };
    let bytes = encode_app_message(&app);
    let back = decode_app_message(&bytes).expect("decodes");
    assert_eq!(back.text, b"ping".to_vec());
}

#[test]
fn decoder_rejects_wrong_shapes() {
    assert!(decode_websocket_message(&vec![]).is_none());
    assert!(decode_client_message(&vec![0xa0]).is_none());
    let app = AppMessage { text: b"x".to_vec() };
    let app_bytes = encode_app_message(&app);
    // an app message is not a websocket message
    assert!(decode_websocket_message(&app_bytes).is_none());
}

#[test]
fn poll_step_routes_and_advances_cursor() {
    let k1 = make_key(&String::from("gw"), 16);
    let k2 = make_key(&String::from("gw"), 17);
    let batch = CertMessages {
        messages: vec![
            EncodedMessage { client_id: 16, key: k1.clone(), val: vec![1] },
            EncodedMessage { client_id: 17, key: k2.clone(), val: vec![2] },
        ],
        cert: vec![9],
        tree: vec![8],
    };
    let (frames, cursor) = poll_step(&batch, 0);
    assert_eq!(cursor, 18);
    assert_eq!(frames.len(), 2);
    assert_eq!(frames[0].client_id, 16);
    assert_eq!(frames[1].client_id, 17);
    // each frame is a CBOR map carrying key, val, cert and tree
    let v: serde_cbor::Value = serde_cbor::from_slice(&frames[0].frame).expect("frame decodes");
    match v {
        serde_cbor::Value::Map(map) => {
            let key = serde_cbor::Value::Text(String::from("key"));
            assert_eq!(map.get(&key), Some(&serde_cbor::Value::Text(k1.clone())));
            let key = serde_cbor::Value::Text(String::from("val"));
            assert_eq!(map.get(&key), Some(&serde_cbor::Value::Bytes(vec![1])));
            let key = serde_cbor::Value::Text(String::from("cert"));
            assert_eq!(map.get(&key), Some(&serde_cbor::Value::Bytes(vec![9])));
            let key = serde_cbor::Value::Text(String::from("tree"));
            assert_eq!(map.get(&key), Some(&serde_cbor::Value::Bytes(vec![8])));
        },
        other => panic!("expected a map, got {:?}", other),
    }
    // an empty batch leaves the cursor alone
    let empty = CertMessages { messages: vec![], cert: vec![], tree: vec![] };
    let (frames, cursor) = poll_step(&empty, 5);
    assert_eq!(frames.len(), 0);
    assert_eq!(cursor, 5);
}

#[test]
fn gateway_server_tracks_sessions_and_pollers() {
    let mut server = GatewayServer::new();
    let s0 = server.accept_session();
    let s1 = server.accept_session();
    assert_eq!(s0, 0);
    assert_eq!(s1, 1);
    // the first client of a canister starts its poller
    assert!(server.connect_canister(s0, 16, b"aaaaa-aa".to_vec()));
    // a second client of the same canister reuses it
    assert!(!server.connect_canister(s1, 17, b"aaaaa-aa".to_vec()));
    // a different canister gets its own poller
    let s2 = server.accept_session();
    assert!(server.connect_canister(s2, 18, b"bbbbb-bb".to_vec()));
    assert_eq!(server.connected_canisters.len(), 2);
    let poller = &server.connected_canisters[0];
    assert_eq!(poller.canister_id, b"aaaaa-aa".to_vec());
    assert_eq!(poller.session_for(16), Some(s0));
    assert_eq!(poller.session_for(17), Some(s1));
    assert_eq!(poller.session_for(99), None);
    let args = server.disconnected(s0).expect("close args recorded");
    assert_eq!(args.client_id, 16);
    assert_eq!(args.canister_id, b"aaaaa-aa".to_vec());
    assert!(server.disconnected(s0).is_none());
    assert!(server.disconnected(s1).is_some());
}

#[test]
fn handshake_step_decides_the_first_frame() {
    let kp = ed25519_compact::KeyPair::from_seed(ed25519_compact::Seed::new([5u8; 32]));
    let first = FirstMessage { client_id: 16, canister_id: b"aaaaa-aa".to_vec() };
    let content = encode_first_message(&first);
    let sig = kp.sk.sign(&content, None).to_vec();
    let frame = encode_first_frame(&content, &sig);
    let pk = kp.pk.to_vec();
    // a fresh session attaches on a well-signed first frame
    let r = handshake_step(false, &frame, &pk).expect("attaches");
    assert_eq!(r.client_id, 16);
    assert_eq!(r.canister_id, b"aaaaa-aa".to_vec());
    // an attached session never treats a frame as a handshake
    assert!(handshake_step(true, &frame, &pk).is_none());
    // a wrong key rejects the handshake
    let other = ed25519_compact::KeyPair::from_seed(ed25519_compact::Seed::new([6u8; 32]));
    assert!(handshake_step(false, &frame, &other.pk.to_vec()).is_none());
    // a malformed frame rejects it too
    assert!(handshake_step(false, &vec![1, 2, 3], &pk).is_none());
}

#[test]
fn sha256_wrapper_hashes() {
    let digest = ic_websocket::crypto::sha256(&b"abc".to_vec());
    let expected = vec![
        0xbau8, 0x78, 0x16, 0xbf, 0x8f, 0x01, 0xcf, 0xea, 0x41, 0x41, 0x40, 0xde, 0x5d, 0xae,
        0x22, 0x23, 0xb0, 0x03, 0x61, 0xa3, 0x96, 0x17, 0x7a, 0x9c, 0xb4, 0x10, 0xff, 0x61,
        0xf2, 0x00, 0x15, 0xad,
    ];
    assert_eq!(digest, expected);
}
