//! The message plane end to end: registration, the signed handshake,
//! ordered inbound admission, polling with the batch cap, multi-gateway
//! isolation, age-based eviction, close and wipe.

use ed25519_compact::{KeyPair, Seed};
use ic_websocket::canister::{
    ws_close, ws_get_client_key, ws_get_messages, ws_message, ws_open, ws_register,
    ws_send_app_message, ws_wipe,
};
use ic_websocket::cbor::{
    decode_app_message, decode_websocket_message, encode_app_message, encode_client_message,
    encode_first_message, encode_websocket_message,
};
use ic_websocket::gateway::{parse_key_nonce, poll_step};
use ic_websocket::keys::make_key;
use ic_websocket::sock::WsState;
use ic_websocket::types::{AppMessage, ClientMessage, FirstMessage, WebsocketMessage};
use ic_websocket::WsError;

fn keypair(seed: u8) -> KeyPair {
    KeyPair::from_seed(Seed::new([seed; 32]))
}

fn register(state: &mut WsState, caller: &str, kp: &KeyPair) -> u64 {
    ws_register(state, String::from(caller), kp.pk.to_vec()).expect("register")
}

fn open(state: &mut WsState, gateway: &str, client_id: u64, kp: &KeyPair, now: u64) -> bool {
    let first = FirstMessage { client_id, canister_id: b"aaaaa-aa".to_vec() };
    let msg = encode_first_message(&first);
    let sig = kp.sk.sign(&msg, None).to_vec();
    ws_open(state, String::from(gateway), msg, sig, now).expect("open")
}

fn envelope(client_id: u64, seq: u64, text: &[u8], kp: &KeyPair) -> Vec<u8> {
    let inner = AppMessage { text: text.to_vec() };
    let content = WebsocketMessage {
        client_id,
        sequence_num: seq,
        timestamp: 0,
        message: encode_app_message(&inner),
    };
    let val = encode_websocket_message(&content);
    let sig = kp.sk.sign(&val, None).to_vec();
    encode_client_message(&ClientMessage { val, sig })
}

#[test]
fn register_hands_out_monotone_ids_from_sixteen() {
    let mut state = WsState::new();
    let k1 = keypair(1);
    let k2 = keypair(2);
    assert_eq!(register(&mut state, "alice", &k1), 16);
    assert_eq!(register(&mut state, "bob", &k2), 17);
    assert_eq!(register(&mut state, "carol", &k1), 18);
    assert_eq!(ws_get_client_key(&state, 16).expect("known"), k1.pk.to_vec());
    assert_eq!(ws_get_client_key(&state, 99), Err(WsError::UnknownClient));
}

#[test]
fn register_rejects_bad_key_lengths() {
    let mut state = WsState::new();
    assert_eq!(
        ws_register(&mut state, String::from("alice"), vec![1, 2, 3]),
        Err(WsError::BadKey)
    );
    // nothing was allocated: the next registration still gets 16
    assert_eq!(register(&mut state, "alice", &keypair(1)), 16);
}

#[test]
fn open_verifies_signature_and_greets() {
    let mut state = WsState::new();
    let kp = keypair(1);
    let cid = register(&mut state, "alice", &kp);
    assert!(open(&mut state, "gw1", cid, &kp, 1000));

    // the open hook queued one "ping" under the first nonce
    let batch = ws_get_messages(&mut state, String::from("gw1"), 0, vec![7, 7]);
    assert_eq!(batch.messages.len(), 1);
    let m = &batch.messages[0];
    assert_eq!(m.client_id, cid);
    assert_eq!(m.key, make_key(&String::from("gw1"), 16));
    assert_eq!(batch.cert, vec![7, 7]);
    assert!(!batch.tree.is_empty());
    let inner = decode_websocket_message(&m.val).expect("val decodes");
    assert_eq!(inner.client_id, cid);
    assert_eq!(inner.sequence_num, 0);
    assert_eq!(inner.timestamp, 1000);
    let app = decode_app_message(&inner.message).expect("app decodes");
    assert_eq!(app.text, b"ping".to_vec());
}

#[test]
fn open_rejects_wrong_signature() {
    let mut state = WsState::new();
    let kp = keypair(1);
    let wrong = keypair(2);
    let cid = register(&mut state, "alice", &kp);
    assert!(!open(&mut state, "gw1", cid, &wrong, 1000));
    // no gateway bound: sends are dropped silently
    let r = ws_send_app_message(&mut state, cid, AppMessage { text: b"x".to_vec() }, 2000);
    assert!(r.is_none());
}

#[test]
fn open_unknown_client_is_an_error() {
    let mut state = WsState::new();
    let kp = keypair(1);
    let first = FirstMessage { client_id: 16, canister_id: b"aaaaa-aa".to_vec() };
    let msg = encode_first_message(&first);
    let sig = kp.sk.sign(&msg, None).to_vec();
    assert_eq!(
        ws_open(&mut state, String::from("gw1"), msg, sig, 0),
        Err(WsError::UnknownClient)
    );
    assert_eq!(
        ws_message(&mut state, vec![1, 2, 3], 0),
        Err(WsError::MalformedEnvelope)
    );
}

#[test]
fn inbound_messages_must_arrive_in_sequence() {
    let mut state = WsState::new();
    let kp = keypair(1);
    let cid = register(&mut state, "alice", &kp);
    assert!(open(&mut state, "gw1", cid, &kp, 1000));

    // skipping sequence 0 is rejected and does not advance the counter
    let gap = envelope(cid, 1, b"hello", &kp);
    assert_eq!(ws_message(&mut state, gap, 2000), Ok(false));

    // sequence 0 is accepted, then 1
    let first = envelope(cid, 0, b"hello", &kp);
    assert_eq!(ws_message(&mut state, first, 3000), Ok(true));
    let second = envelope(cid, 1, b"again", &kp);
    assert_eq!(ws_message(&mut state, second, 4000), Ok(true));

    // replaying 1 is rejected
    let replay = envelope(cid, 1, b"again", &kp);
    assert_eq!(ws_message(&mut state, replay, 5000), Ok(false));

    // a wrong signature is rejected whatever the sequence says
    let wrong = keypair(2);
    let forged = envelope(cid, 2, b"evil", &wrong);
    assert_eq!(ws_message(&mut state, forged, 6000), Ok(false));

    // the echo replies carry " ping" appended, in order
    let batch = ws_get_messages(&mut state, String::from("gw1"), 0, vec![]);
    assert_eq!(batch.messages.len(), 3);
    let texts: Vec<Vec<u8>> = batch
        .messages
        .iter()
        .map(|m| {
            let inner = decode_websocket_message(&m.val).expect("val");
            decode_app_message(&inner.message).expect("app").text
        })
        .collect();
    assert_eq!(texts[0], b"ping".to_vec());
    assert_eq!(texts[1], b"hello ping".to_vec());
    assert_eq!(texts[2], b"again ping".to_vec());
    // outbound sequence numbers run 0, 1, 2 without gaps
    let seqs: Vec<u64> = batch
        .messages
        .iter()
        .map(|m| decode_websocket_message(&m.val).expect("val").sequence_num)
        .collect();
    assert_eq!(seqs, vec![0, 1, 2]);
}

#[test]
fn poll_returns_at_most_fifty_and_then_the_rest() {
    let mut state = WsState::new();
    let kp = keypair(1);
    let cid = register(&mut state, "alice", &kp);
    assert!(open(&mut state, "gw1", cid, &kp, 1000));
    // one "ping" is queued already; add 75 more
    for i in 0..75u64 {
        let r = ws_send_app_message(
            &mut state,
            cid,
            AppMessage { text: b"m".to_vec() },
            2000 + i,
        );
        assert!(r.is_some());
    }
    let batch = ws_get_messages(&mut state, String::from("gw1"), 0, vec![1]);
    assert_eq!(batch.messages.len(), 50);
    let (_, cursor) = poll_step(&batch, 0);
    let batch2 = ws_get_messages(&mut state, String::from("gw1"), cursor, vec![1]);
    assert_eq!(batch2.messages.len(), 26);
    let (_, cursor2) = poll_step(&batch2, cursor);
    let batch3 = ws_get_messages(&mut state, String::from("gw1"), cursor2, vec![1]);
    assert_eq!(batch3.messages.len(), 0);
    assert!(batch3.cert.is_empty());
    assert!(batch3.tree.is_empty());
}

#[test]
fn gateways_only_see_their_own_messages() {
    let mut state = WsState::new();
    let k1 = keypair(1);
    let k2 = keypair(2);
    let c1 = register(&mut state, "alice", &k1);
    let c2 = register(&mut state, "bob", &k2);
    assert!(open(&mut state, "gw1", c1, &k1, 1000));
    assert!(open(&mut state, "gw2", c2, &k2, 1001));
    // interleave sends so the nonces interleave globally
    for i in 0..3u64 {
        assert!(ws_send_app_message(
            &mut state,
            c1,
            AppMessage { text: b"a".to_vec() },
            2000 + i
        )
        .is_some());
        assert!(ws_send_app_message(
            &mut state,
            c2,
            AppMessage { text: b"b".to_vec() },
            3000 + i
        )
        .is_some());
    }
    let b1 = ws_get_messages(&mut state, String::from("gw1"), 0, vec![]);
    let b2 = ws_get_messages(&mut state, String::from("gw2"), 0, vec![]);
    assert_eq!(b1.messages.len(), 4);
    assert_eq!(b2.messages.len(), 4);
    assert!(b1.messages.iter().all(|m| m.client_id == c1));
    assert!(b2.messages.iter().all(|m| m.client_id == c2));
    assert!(b1.messages.iter().all(|m| m.key.starts_with("gw1_")));
    assert!(b2.messages.iter().all(|m| m.key.starts_with("gw2_")));
    // keys are globally unique and nonces strictly increase per gateway
    let n1: Vec<u64> = b1.messages.iter().map(|m| parse_key_nonce(&m.key).unwrap()).collect();
    assert!(n1.windows(2).all(|w| w[0] < w[1]));
}

#[test]
fn old_messages_expire_when_a_send_comes() {
    let mut state = WsState::new();
    let k1 = keypair(1);
    let k2 = keypair(2);
    let c1 = register(&mut state, "alice", &k1);
    let c2 = register(&mut state, "bob", &k2);
    // the open hook sends c1's "ping" at time 0
    assert!(open(&mut state, "gw1", c1, &k1, 0));
    // five minutes and a bit later a send for c2 evicts it
    let later: u64 = 310_000_000_000;
    assert!(open(&mut state, "gw2", c2, &k2, later));
    let b1 = ws_get_messages(&mut state, String::from("gw1"), 0, vec![]);
    assert_eq!(b1.messages.len(), 0);
    let b2 = ws_get_messages(&mut state, String::from("gw2"), 0, vec![]);
    assert_eq!(b2.messages.len(), 1);
}

#[test]
fn close_is_idempotent_and_silent() {
    let mut state = WsState::new();
    let kp = keypair(1);
    let cid = register(&mut state, "alice", &kp);
    assert!(open(&mut state, "gw1", cid, &kp, 1000));
    ws_close(&mut state, cid);
    assert_eq!(ws_get_client_key(&state, cid), Err(WsError::UnknownClient));
    ws_close(&mut state, cid);
    assert_eq!(ws_get_client_key(&state, cid), Err(WsError::UnknownClient));
    // closing an id that never existed is silent too
    ws_close(&mut state, 12345);
    // queued messages survive the close and still poll
    let batch = ws_get_messages(&mut state, String::from("gw1"), 0, vec![]);
    assert_eq!(batch.messages.len(), 1);
}

#[test]
fn wipe_resets_ids_and_nonces() {
    let mut state = WsState::new();
    let kp = keypair(1);
    let cid = register(&mut state, "alice", &kp);
    assert!(open(&mut state, "gw1", cid, &kp, 1000));
    assert_eq!(cid, 16);
    ws_wipe(&mut state);
    let cid2 = register(&mut state, "alice", &kp);
    assert_eq!(cid2, 16);
    assert!(open(&mut state, "gw1", cid2, &kp, 2000));
    let batch = ws_get_messages(&mut state, String::from("gw1"), 0, vec![]);
    assert_eq!(batch.messages.len(), 1);
    // the key nonce starts over at 16 as well
    assert_eq!(parse_key_nonce(&batch.messages[0].key), Some(16));
}

#[test]
fn send_returns_the_published_root_hash() {
    let mut state = WsState::new();
    let kp = keypair(1);
    let cid = register(&mut state, "alice", &kp);
    assert!(open(&mut state, "gw1", cid, &kp, 1000));
    let r1 = ws_send_app_message(&mut state, cid, AppMessage { text: b"x".to_vec() }, 2000)
        .expect("enqueued");
    assert_eq!(r1.len(), 32);
    let r2 = ws_send_app_message(&mut state, cid, AppMessage { text: b"y".to_vec() }, 3000)
        .expect("enqueued");
    assert_eq!(r2.len(), 32);
    // a different tree publishes a different root
    assert_ne!(r1, r2);
}

#[test]
fn witnesses_cover_single_keys_and_ranges() {
    let mut state = WsState::new();
    let kp = keypair(1);
    let cid = register(&mut state, "alice", &kp);
    assert!(open(&mut state, "gw1", cid, &kp, 1000));
    assert!(ws_send_app_message(&mut state, cid, AppMessage { text: b"x".to_vec() }, 2000)
        .is_some());
    let first = make_key(&String::from("gw1"), 16);
    let last = make_key(&String::from("gw1"), 17);
    let w1 = state.get_cert_for_message(&first);
    let wr = state.get_cert_for_range(&first, &last);
    assert!(!w1.is_empty());
    assert!(!wr.is_empty());
    // both are tagged CBOR
    assert_eq!(&w1[0..3], &[0xd9, 0xd9, 0xf7]);
    assert_eq!(&wr[0..3], &[0xd9, 0xd9, 0xf7]);
    // the range witness over two keys differs from the single witness
    assert_ne!(w1, wr);
}
