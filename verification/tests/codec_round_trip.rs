//! The wire format: round trips, exact bytes, and agreement with the
//! binary-canonical serializer the surrounding system uses.

use shard_state_sync::codec::decode_request;
use shard_state_sync::message::RemoteKVRequest;
use shard_state_sync::message::RemoteKVResponse;
use shard_state_sync::codec::decode_response;
use shard_state_sync::codec::encode_request;
use shard_state_sync::codec::encode_response;
use shard_state_sync::state_data::StateKey;
use shard_state_sync::state_data::StateValue;

fn key(bytes: &[u8]) -> StateKey {
    StateKey::new(bytes.to_vec())
}

fn value(bytes: &[u8]) -> StateValue {
    StateValue::new(bytes.to_vec())
}

#[test]
fn request_round_trip() {
    let keys = vec![key(b"alpha"), key(b""), key(b"b")];
    let bytes = encode_request(7, &keys);
    let back = decode_request(&bytes).unwrap();
    assert_eq!(back.shard_id, 7);
    let back_keys: Vec<Vec<u8>> = back.keys.into_iter().map(|k| k.bytes).collect();
    assert_eq!(back_keys, vec![b"alpha".to_vec(), b"".to_vec(), b"b".to_vec()]);
}

#[test]
fn request_keeps_duplicate_keys() {
    // The key set is preserved exactly: order and multiplicity.
    let keys = vec![key(b"k"), key(b"k"), key(b"j"), key(b"k")];
    let bytes = encode_request(0, &keys);
    let back = decode_request(&bytes).unwrap();
    let back_keys: Vec<Vec<u8>> = back.keys.into_iter().map(|k| k.bytes).collect();
    assert_eq!(back_keys, vec![b"k".to_vec(), b"k".to_vec(), b"j".to_vec(), b"k".to_vec()]);
}

#[test]
fn response_round_trip() {
    let pairs = vec![
        (key(b"a"), Some(value(b"V1"))),
        (key(b"b"), None),
        (key(b"c"), Some(value(b""))),
    ];
    let bytes = encode_response(&pairs);
    let back = decode_response(&bytes).unwrap();
    let back_pairs: Vec<(Vec<u8>, Option<Vec<u8>>)> = back
        .pairs
        .into_iter()
        .map(|(k, v)| (k.bytes, v.map(|sv| sv.bytes)))
        .collect();
    assert_eq!(
        back_pairs,
        vec![
            (b"a".to_vec(), Some(b"V1".to_vec())),
            (b"b".to_vec(), None),
            (b"c".to_vec(), Some(b"".to_vec())),
        ]
    );
}

#[test]
fn request_bytes_are_exact() {
    // Shard as eight little-endian bytes, then the key count and each
    // key's length as ULEB128.
    let bytes = encode_request(1, &vec![key(b"ab")]);
    assert_eq!(bytes, vec![1, 0, 0, 0, 0, 0, 0, 0, 1, 2, 0x61, 0x62]);
}

#[test]
fn length_crosses_uleb_boundary() {
    // 127 fits one length byte; 128 and 200 need a continuation byte.
    let short = encode_request(0, &vec![key(&[7u8; 127])]);
    assert_eq!(short[9], 127);
    assert_eq!(short.len(), 8 + 1 + 1 + 127);
    let long = encode_request(0, &vec![key(&[7u8; 200])]);
    assert_eq!(&long[9..11], &[0xC8, 0x01]);
    assert_eq!(long.len(), 8 + 1 + 2 + 200);
}

#[test]
fn format_matches_canonical_serializer() {
    // The request payload is what the canonical binary serializer produces
    // for (shard id, list of keys), and the response payload what it
    // produces for a list of (key, optional value) pairs.
    let keys = vec![key(b"ab"), key(b""), key(&[9u8; 130])];
    let ours = encode_request(513, &keys);
    let reference: Vec<u8> =
        bcs::to_bytes(&(513u64, vec![b"ab".to_vec(), b"".to_vec(), vec![9u8; 130]])).unwrap();
    assert_eq!(ours, reference);

    let pairs = vec![(key(b"a"), Some(value(b"V1"))), (key(b"b"), None)];
    let ours = encode_response(&pairs);
    let reference: Vec<u8> = bcs::to_bytes(&vec![
        (b"a".to_vec(), Some(b"V1".to_vec())),
        (b"b".to_vec(), None::<Vec<u8>>),
    ])
    .unwrap();
    assert_eq!(ours, reference);
}

#[test]
fn decode_rejects_truncated_and_padded_streams() {
    let keys = vec![key(b"abc")];
    let mut bytes = encode_request(3, &keys);
    let whole = bytes.clone();
    bytes.pop();
    assert!(decode_request(&bytes).is_none());
    let mut padded = whole;
    padded.push(0);
    assert!(decode_request(&padded).is_none());
    assert!(decode_request(&Vec::new()).is_none());
    assert!(decode_response(&vec![1, 1, 0x61, 2]).is_none());
}

#[test]
fn request_type_carries_its_parts() {
    let req = RemoteKVRequest::new(9, vec![key(b"z")]);
    let (shard, keys) = req.into_parts();
    assert_eq!(shard, 9);
    assert_eq!(keys.len(), 1);
    assert_eq!(keys[0].bytes, b"z".to_vec());
    let resp = RemoteKVResponse::new(vec![(key(b"z"), None)]);
    assert_eq!(resp.pairs.len(), 1);
}
