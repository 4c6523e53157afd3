//! The bucketed priority queue and its ordering guarantee.

use shard_state_sync::message::Message;
use shard_state_sync::message::State;
use shard_state_sync::queue::bucket_of;
use shard_state_sync::queue::PriorityRequestQueue;

fn envelope(seq_num: u64) -> Message {
    Message::create_with_metadata(Vec::new(), 0, seq_num, 0)
}

#[test]
fn bucket_formula() {
    // Bucket size 200: sequence numbers 0..=199 fall in bucket 1,
    // 200..=399 in bucket 2, and so on.
    assert_eq!(bucket_of(0), 1);
    assert_eq!(bucket_of(1), 1);
    assert_eq!(bucket_of(199), 1);
    assert_eq!(bucket_of(200), 2);
    assert_eq!(bucket_of(399), 2);
    assert_eq!(bucket_of(400), 3);
}

#[test]
fn pop_on_empty_queue_yields_nothing() {
    let mut q = PriorityRequestQueue::new();
    assert!(q.pop().is_none());
    assert!(q.is_empty());
}

#[test]
fn queue_length_tracks_pushes_and_pops() {
    let mut q = PriorityRequestQueue::new();
    q.push(envelope(3));
    q.push(envelope(250));
    assert_eq!(q.len(), 2);
    assert!(q.pop().is_some());
    assert_eq!(q.len(), 1);
    assert!(q.pop().is_some());
    assert!(q.is_empty());
}

#[test]
fn lower_bucket_drains_before_higher() {
    // Sequence numbers 0..=199 (bucket 1) and 200..=399 (bucket 2) pushed
    // in interleaved arrival order; every bucket-1 entry must leave before
    // any bucket-2 entry.
    let mut q = PriorityRequestQueue::new();
    for i in 0..200u64 {
        q.push(envelope(i));
        q.push(envelope(200 + i));
    }
    let mut popped: Vec<u64> = Vec::new();
    while let Some(msg) = q.pop() {
        popped.push(msg.seq_num.unwrap());
    }
    assert_eq!(popped.len(), 400);
    for (i, seq) in popped.iter().enumerate() {
        if i < 200 {
            assert!(*seq < 200, "bucket 2 entry {} left while bucket 1 had entries", seq);
        } else {
            assert!(*seq >= 200);
        }
    }
}

#[test]
fn arrival_order_kept_within_bucket() {
    // 5, 3 and 7 share bucket 1; they leave in arrival order, not by
    // sequence number.
    let mut q = PriorityRequestQueue::new();
    q.push(envelope(5));
    q.push(envelope(3));
    q.push(envelope(7));
    assert_eq!(q.pop().unwrap().seq_num, Some(5));
    assert_eq!(q.pop().unwrap().seq_num, Some(3));
    assert_eq!(q.pop().unwrap().seq_num, Some(7));
}

#[test]
fn queued_envelope_comes_back_intact() {
    let mut q = PriorityRequestQueue::new();
    let msg = Message::create_with_metadata(vec![9, 8, 7], 5, 11, 4);
    q.push(msg);
    let back = q.pop().unwrap();
    assert_eq!(back.data, vec![9, 8, 7]);
    assert_eq!(back.seq_num, Some(11));
    assert_eq!(back.shard_id, Some(4));
    assert_eq!(back.start_ms_since_epoch, Some(5));
}

#[test]
fn queue_entries_order_by_priority_alone() {
    let low = State { msg: envelope(900), priority: 1 };
    let high = State { msg: envelope(1), priority: 7 };
    assert!(low < high);
    assert_eq!(low.partial_cmp(&high), Some(std::cmp::Ordering::Less));
    let same = State { msg: envelope(2), priority: 1 };
    assert_eq!(low.partial_cmp(&same), Some(std::cmp::Ordering::Equal));
    assert!(low == same);
}
