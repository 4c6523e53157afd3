//! The value cell, the snapshot slot, and the request-handling service.

use shard_state_sync::codec::decode_response;
use shard_state_sync::codec::encode_request;
use shard_state_sync::message::Message;
use shard_state_sync::remote_state_value::RemoteStateValue;
use shard_state_sync::remote_state_view_service::RemoteStateViewService;
use shard_state_sync::state_data::StateKey;
use shard_state_sync::state_data::StateSnapshot;
use shard_state_sync::state_data::StateValue;
use shard_state_sync::state_view::FatalError;
use shard_state_sync::state_view::StateViewSlot;

fn key(bytes: &[u8]) -> StateKey {
    StateKey::new(bytes.to_vec())
}

fn value(bytes: &[u8]) -> StateValue {
    StateValue::new(bytes.to_vec())
}

#[test]
fn cell_starts_waiting() {
    let cell = RemoteStateValue::waiting();
    assert!(!cell.is_ready());
}

#[test]
fn cell_resolution_is_observed_by_every_read() {
    // Two readers of the same resolved cell, and a late reader after
    // resolution, all see the one value that was set.
    let mut cell = RemoteStateValue::waiting();
    cell.set_value(Some(value(b"X")));
    assert!(cell.is_ready());
    let first = cell.get_value();
    let second = cell.get_value();
    assert_eq!(first.as_ref().map(|v| v.bytes.clone()), Some(b"X".to_vec()));
    assert_eq!(second.as_ref().map(|v| v.bytes.clone()), Some(b"X".to_vec()));
    let late = cell.get_value();
    assert_eq!(late.map(|v| v.bytes), Some(b"X".to_vec()));
}

#[test]
fn cell_resolves_to_absence() {
    let mut cell = RemoteStateValue::waiting();
    cell.set_value(None);
    assert!(cell.is_ready());
    assert!(cell.get_value().is_none());
}

#[test]
fn empty_slot_fails_fatally() {
    // A read before any snapshot is installed is a fatal error, never a
    // default value.
    let slot = StateViewSlot::new();
    assert!(!slot.is_installed());
    let r = slot.get_state_value(&key(b"a"));
    assert_eq!(r, Err(FatalError::StateViewMissing));
}

#[test]
fn installed_slot_answers_from_its_snapshot() {
    let mut snapshot = StateSnapshot::empty();
    snapshot.insert(key(b"a"), Some(value(b"V1")));
    snapshot.insert(key(b"b"), None);
    let mut slot = StateViewSlot::new();
    slot.install(snapshot);
    assert!(slot.is_installed());
    let a = slot.get_state_value(&key(b"a")).unwrap();
    assert_eq!(a.map(|v| v.bytes), Some(b"V1".to_vec()));
    let b = slot.get_state_value(&key(b"b")).unwrap();
    assert!(b.is_none());
    let c = slot.get_state_value(&key(b"c")).unwrap();
    assert!(c.is_none());
    slot.clear();
    assert_eq!(slot.get_state_value(&key(b"a")), Err(FatalError::StateViewMissing));
}

#[test]
fn service_serves_request_from_snapshot() {
    // Snapshot: "a" -> V1, "b" -> explicitly absent.  Request: a, b, c.
    // Expected response: (a, V1), (b, None), (c, None).
    let mut service = RemoteStateViewService::new(2, 4, 3);
    let mut snapshot = StateSnapshot::empty();
    snapshot.insert(key(b"a"), Some(value(b"V1")));
    snapshot.insert(key(b"b"), None);
    service.set_state_view(snapshot);

    let keys = vec![key(b"a"), key(b"b"), key(b"c")];
    let payload = encode_request(1, &keys);
    let request = Message::create_with_metadata(payload, 17, 42, 1);
    let response = service.handle_message(request).unwrap();

    assert_eq!(response.seq_num, Some(42));
    assert_eq!(response.shard_id, Some(1));
    assert_eq!(response.start_ms_since_epoch, Some(17));
    let decoded = decode_response(&response.data).unwrap();
    let pairs: Vec<(Vec<u8>, Option<Vec<u8>>)> = decoded
        .pairs
        .into_iter()
        .map(|(k, v)| (k.bytes, v.map(|sv| sv.bytes)))
        .collect();
    assert_eq!(
        pairs,
        vec![
            (b"a".to_vec(), Some(b"V1".to_vec())),
            (b"b".to_vec(), None),
            (b"c".to_vec(), None),
        ]
    );
}

#[test]
fn service_rejects_malformed_payload() {
    let service = RemoteStateViewService::new(1, 1, 1);
    let request = Message::create_with_metadata(vec![1, 2, 3], 0, 0, 0);
    assert_eq!(service.handle_message(request), Err(FatalError::MalformedRequest));
}

#[test]
fn service_without_snapshot_fails_fatally() {
    let service = RemoteStateViewService::new(1, 1, 1);
    let keys = vec![key(b"a")];
    let payload = encode_request(0, &keys);
    let request = Message::create_with_metadata(payload, 0, 0, 0);
    assert_eq!(service.handle_message(request), Err(FatalError::StateViewMissing));
}

#[test]
fn service_answers_empty_request_without_snapshot() {
    // A request for no keys never touches the snapshot, so it succeeds
    // even while the slot is empty.
    let service = RemoteStateViewService::new(1, 1, 1);
    let keys: Vec<StateKey> = Vec::new();
    let payload = encode_request(0, &keys);
    let request = Message::create_with_metadata(payload, 0, 0, 0);
    let response = service.handle_message(request).unwrap();
    let decoded = decode_response(&response.data).unwrap();
    assert!(decoded.pairs.is_empty());
}

#[test]
fn service_clears_snapshot() {
    let mut service = RemoteStateViewService::new(1, 1, 1);
    let mut snapshot = StateSnapshot::empty();
    snapshot.insert(key(b"a"), Some(value(b"V1")));
    service.set_state_view(snapshot);
    service.drop_state_view();
    let keys = vec![key(b"a")];
    let payload = encode_request(0, &keys);
    let request = Message::create_with_metadata(payload, 0, 0, 0);
    assert_eq!(service.handle_message(request), Err(FatalError::StateViewMissing));
}

#[test]
fn connection_choice_stays_in_range() {
    let service = RemoteStateViewService::new(1, 5, 1);
    for _ in 0..100 {
        assert!(service.choose_outbound_connection() < 5);
    }
}
