//! The remote-side service that answers batched state-key requests.
//!
//! Inbound envelopes from peer shards are filed into the bucketed priority
//! queue; workers take the lowest-bucket envelope, decode the request,
//! read each key from the installed snapshot, and build the response
//! envelope that goes back to the asking shard on one of its outbound
//! connections, chosen to spread load.
//!
//! The thread plumbing around this — one ingestion loop per peer draining
//! its inbound channel, a worker pool parked on a condition variable, and
//! the transport that carries the envelopes — lives outside the library;
//! this type holds the state those loops share and the steps they take.

use crate::codec::encode_response;
use crate::codec::spec_decode_request;
use crate::codec::spec_encode_response;
use crate::codec::decode_request;
use crate::codec::lemma_decoded_request_fits;
use crate::codec::MAX_LEN;
use crate::message::Message;
use crate::message::keys_view;
use crate::message::pairs_view;
use crate::queue::first_min_index;
use crate::queue::spec_bucket_of;
use crate::queue::PriorityRequestQueue;
use crate::state_data::opt_value_view;
use crate::state_data::StateKey;
use crate::state_data::StateSnapshot;
use crate::state_data::StateValue;
use crate::state_view::lemma_snapshot_value_fits;
use crate::state_view::snapshot_fits;
use crate::state_view::FatalError;
use crate::state_view::StateViewSlot;
use vstd::prelude::*;

verus! {

/// The pairs a response must carry for `keys` read against `slot`: each key
/// with exactly the value the installed snapshot gives it, in request order.
pub open spec fn response_pairs(slot: StateViewSlot, keys: Seq<Seq<u8>>) -> Seq<
    (Seq<u8>, Option<Seq<u8>>),
> {
    keys.map_values(|k: Seq<u8>| (k, slot.spec_value_of(k)))
}

/// Whether an envelope carries the metadata the protocol guarantees on
/// every request.
pub open spec fn has_metadata(m: Message) -> bool {
    m.seq_num is Some && m.start_ms_since_epoch is Some
}

/// The remote state view service: the snapshot slot and the request queue
/// that ingestion loops and workers share, plus the shape of the deployment
/// (how many peers, connections and workers the loops should run).
pub struct RemoteStateViewService {
    state_view: StateViewSlot,
    kv_unprocessed_pq: PriorityRequestQueue,
    num_shards: usize,
    num_connections_per_peer: usize,
    num_workers: usize,
}

impl RemoteStateViewService {
    /// The (bucket, envelope) entries awaiting a worker, in arrival order.
    pub closed spec fn spec_pending(&self) -> Seq<(u64, Message)> {
        self.kv_unprocessed_pq.entries()
    }

    /// The snapshot slot.
    pub closed spec fn spec_state_view(&self) -> StateViewSlot {
        self.state_view
    }

    /// Well-formedness: every queued envelope carries its metadata, and the
    /// deployment shape is non-degenerate.
    pub open spec fn wf(&self) -> bool {
        &&& forall|j: int|
            0 <= j < self.spec_pending().len() ==> has_metadata(
                #[trigger] self.spec_pending()[j].1,
            )
        &&& self.spec_num_connections_per_peer() > 0
        &&& self.spec_state_view().wf()
    }

    /// A service for `num_shards` peers, each reached over
    /// `num_connections_per_peer` outbound connections, served by
    /// `num_workers` workers.  It starts with no snapshot and no pending
    /// request.
    pub fn new(num_shards: usize, num_connections_per_peer: usize, num_workers: usize) -> (r: Self)
        requires
            num_connections_per_peer > 0,
        ensures
            r.wf(),
            !r.spec_state_view().spec_is_installed(),
            r.spec_pending().len() == 0,
            r.spec_num_shards() == num_shards,
            r.spec_num_connections_per_peer() == num_connections_per_peer,
            r.spec_num_workers() == num_workers,
    {
        RemoteStateViewService {
            state_view: StateViewSlot::new(),
            kv_unprocessed_pq: PriorityRequestQueue::new(),
            num_shards,
            num_connections_per_peer,
            num_workers,
        }
    }

    pub closed spec fn spec_num_shards(&self) -> usize {
        self.num_shards
    }

    pub closed spec fn spec_num_connections_per_peer(&self) -> usize {
        self.num_connections_per_peer
    }

    pub closed spec fn spec_num_workers(&self) -> usize {
        self.num_workers
    }

    /// How many peer shards the service serves.
    pub fn num_shards(&self) -> (n: usize)
        ensures
            n == self.spec_num_shards(),
    {
        self.num_shards
    }

    /// How many outbound connections each peer is reached over.
    pub fn num_connections_per_peer(&self) -> (n: usize)
        ensures
            n == self.spec_num_connections_per_peer(),
    {
        self.num_connections_per_peer
    }

    /// How many workers should drain the queue.
    pub fn num_workers(&self) -> (n: usize)
        ensures
            n == self.spec_num_workers(),
    {
        self.num_workers
    }

    /// Installs the snapshot of the block about to execute.  In-flight
    /// readers of a previously obtained snapshot are unaffected; every
    /// later read is answered from this one.
    pub fn set_state_view(&mut self, snapshot: StateSnapshot)
        requires
            snapshot_fits(snapshot),
            old(self).wf(),
        ensures
            final(self).wf(),
            final(self).spec_state_view().spec_is_installed(),
            final(self).spec_state_view().spec_view() == Some(snapshot),
            final(self).spec_pending() == old(self).spec_pending(),
            final(self).spec_num_shards() == old(self).spec_num_shards(),
            final(self).spec_num_connections_per_peer() == old(self).spec_num_connections_per_peer(),
            final(self).spec_num_workers() == old(self).spec_num_workers(),
    {
        self.state_view.install(snapshot);
        proof {
            assert(self.spec_pending() == old(self).spec_pending());
            assert(forall|j: int|
                0 <= j < self.spec_pending().len() ==> has_metadata(
                    #[trigger] self.spec_pending()[j].1,
                ));
            assert(self.spec_num_connections_per_peer() > 0);
            assert(self.spec_state_view().wf());
        }
    }

    /// Empties the snapshot slot after the block's remote-read phase, so
    /// no stale read bleeds into the next block.
    pub fn drop_state_view(&mut self)
        requires
            old(self).wf(),
        ensures
            final(self).wf(),
            !final(self).spec_state_view().spec_is_installed(),
            final(self).spec_pending() == old(self).spec_pending(),
            final(self).spec_num_shards() == old(self).spec_num_shards(),
            final(self).spec_num_connections_per_peer() == old(self).spec_num_connections_per_peer(),
            final(self).spec_num_workers() == old(self).spec_num_workers(),
    {
        self.state_view.clear();
        proof {
            assert(self.spec_pending() == old(self).spec_pending());
            assert(forall|j: int|
                0 <= j < self.spec_pending().len() ==> has_metadata(
                    #[trigger] self.spec_pending()[j].1,
                ));
            assert(self.spec_num_connections_per_peer() > 0);
            assert(self.spec_state_view().wf());
        }
    }

    /// The ingestion step: files an inbound envelope under the priority
    /// bucket of its sequence number.  The ingestion loop calls this for
    /// each envelope its peer's channel yields, then wakes a worker.
    pub fn enqueue_request(&mut self, msg: Message)
        requires
            old(self).wf(),
            has_metadata(msg),
        ensures
            final(self).wf(),
            final(self).spec_pending() == old(self).spec_pending().push(
                (spec_bucket_of(msg.seq_num->0), msg),
            ),
            final(self).spec_state_view() == old(self).spec_state_view(),
            final(self).spec_num_shards() == old(self).spec_num_shards(),
            final(self).spec_num_connections_per_peer() == old(self).spec_num_connections_per_peer(),
            final(self).spec_num_workers() == old(self).spec_num_workers(),
    {
        self.kv_unprocessed_pq.push(msg);
        proof {
            assert forall|j: int| 0 <= j < self.spec_pending().len() implies has_metadata(
                #[trigger] self.spec_pending()[j].1,
            ) by {
                if j < old(self).spec_pending().len() {
                    assert(self.spec_pending()[j] == old(self).spec_pending()[j]);
                }
            }
        }
    }

    /// Whether any request is pending.  Workers check this under the wake
    /// signal's lock and park when nothing is pending.
    pub fn has_pending_request(&self) -> (r: bool)
        ensures
            r == (self.spec_pending().len() > 0),
    {
        !self.kv_unprocessed_pq.is_empty()
    }

    /// The worker's dequeue step: takes the first-filed envelope of the
    /// lowest non-empty bucket, or nothing when no request is pending.
    /// Workers call this once woken, then handle the envelope without
    /// holding any lock.
    pub fn pop_next_request(&mut self) -> (r: Option<Message>)
        requires
            old(self).wf(),
        ensures
            final(self).wf(),
            final(self).spec_state_view() == old(self).spec_state_view(),
            final(self).spec_num_shards() == old(self).spec_num_shards(),
            final(self).spec_num_connections_per_peer() == old(self).spec_num_connections_per_peer(),
            final(self).spec_num_workers() == old(self).spec_num_workers(),
            ({
                let s = old(self).spec_pending();
                if s.len() == 0 {
                    r is None && final(self).spec_pending() == s
                } else {
                    r is Some && r->0 == s[first_min_index(s)].1 && has_metadata(r->0)
                        && final(self).spec_pending() == s.remove(first_min_index(s))
                }
            }),
    {
        let r = self.kv_unprocessed_pq.pop();
        proof {
            let s = old(self).spec_pending();
            if s.len() > 0 {
                crate::queue::lemma_min_priority(s);
                let i = first_min_index(s);
                assert(has_metadata(s[i].1));
                assert forall|j: int| 0 <= j < self.spec_pending().len() implies has_metadata(
                    #[trigger] self.spec_pending()[j].1,
                ) by {
                    if j < i {
                        assert(self.spec_pending()[j] == s[j]);
                    } else {
                        assert(self.spec_pending()[j] == s[j + 1]);
                    }
                }
            }
        }
        r
    }

    /// The worker's resolution step.  Decodes the request, reads every
    /// requested key from the installed snapshot, and builds the response
    /// envelope: the pairs in request order, the peer's sequence number and
    /// timestamp echoed for correlation, addressed to the asking shard.
    ///
    /// A payload that does not decode, or a non-empty request served while
    /// no snapshot is installed, is a fatal sequencing error; a requested
    /// key the snapshot does not mention simply reads as absent.
    #[verifier::loop_isolation(false)]
    pub fn handle_message(&self, message: Message) -> (r: Result<Message, FatalError>)
        requires
            self.wf(),
            has_metadata(message),
        ensures
            ({
                let slot = self.spec_state_view();
                match spec_decode_request(message.data@) {
                    None => r == Err::<Message, FatalError>(FatalError::MalformedRequest),
                    Some((shard_id, keys)) => {
                        if keys.len() > 0 && !slot.spec_is_installed() {
                            r == Err::<Message, FatalError>(FatalError::StateViewMissing)
                        } else {
                            r is Ok && (r->Ok_0).data@ == spec_encode_response(
                                response_pairs(slot, keys),
                            ) && (r->Ok_0).seq_num == message.seq_num && (r->Ok_0).shard_id
                                == Some(shard_id) && (r->Ok_0).start_ms_since_epoch
                                == message.start_ms_since_epoch
                        }
                    },
                }
            }),
    {
        let start_ms = match message.start_ms_since_epoch {
            Some(t) => t,
            None => {
                proof {
                    assert(false);
                }
                0
            },
        };
        let seq_num = match message.seq_num {
            Some(n) => n,
            None => {
                proof {
                    assert(false);
                }
                0
            },
        };
        let req = match decode_request(&message.data) {
            Some(req) => req,
            None => {
                return Err(FatalError::MalformedRequest);
            },
        };
        proof {
            lemma_decoded_request_fits(message.data@);
        }
        let (shard_id, state_keys) = req.into_parts();
        let ghost slot = self.spec_state_view();
        let ghost kv = keys_view(state_keys@);
        let n = state_keys.len();
        let mut pairs: Vec<(StateKey, Option<StateValue>)> = Vec::new();
        let mut i: usize = 0;
        proof {
            assert(pairs_view(pairs@) =~= response_pairs(slot, kv.take(0)));
        }
        while i < n
            invariant
                i <= n,
                n == state_keys@.len(),
                kv == keys_view(state_keys@),
                slot == self.spec_state_view(),
                i > 0 ==> slot.spec_is_installed(),
                pairs_view(pairs@) == response_pairs(slot, kv.take(i as int)),
            decreases n - i,
        {
            if !self.state_view.is_installed() {
                return Err(FatalError::StateViewMissing);
            }
            let key = state_keys[i].duplicate();
            let value = match self.state_view.get_state_value(&key) {
                Ok(v) => v,
                Err(e) => {
                    return Err(e);
                },
            };
            pairs.push((key, value));
            proof {
                assert(kv[i as int] == state_keys@[i as int]@);
                assert(kv.take(i as int + 1) =~= kv.take(i as int).push(kv[i as int]));
                assert(response_pairs(slot, kv.take(i as int + 1)) =~= response_pairs(
                    slot,
                    kv.take(i as int),
                ).push((kv[i as int], slot.spec_value_of(kv[i as int]))));
                assert(pairs_view(pairs@) =~= pairs_view(pairs@.drop_last()).push(
                    (pairs@.last().0@, opt_value_view(pairs@.last().1)),
                ));
            }
            i = i + 1;
        }
        proof {
            assert(kv.take(n as int) =~= kv);
            assert(pairs@.len() == kv.len());
            assert(kv.len() <= MAX_LEN as nat);
            assert forall|j: int| 0 <= j < pairs_view(pairs@).len() implies (
            #[trigger] pairs_view(pairs@)[j].0.len() <= MAX_LEN as nat && (pairs_view(
                pairs@,
            )[j].1 is Some ==> (pairs_view(pairs@)[j].1->0).len() <= MAX_LEN as nat)) by {
                assert(pairs_view(pairs@)[j] == (kv[j], slot.spec_value_of(kv[j])));
                assert(kv[j].len() <= MAX_LEN as nat);
                if slot.spec_value_of(kv[j]) is Some {
                    lemma_snapshot_value_fits(slot.spec_view()->0, kv[j]);
                }
            }
        }
        let resp_bytes = encode_response(&pairs);
        Ok(Message::create_with_metadata(resp_bytes, start_ms, seq_num, shard_id))
    }

    /// Picks the outbound connection the response leaves on: any of the
    /// peer's connections, chosen at random so no single connection carries
    /// all responses.
    pub fn choose_outbound_connection(&self) -> (idx: usize)
        requires
            self.wf(),
        ensures
            idx < self.spec_num_connections_per_peer(),
    {
        pick_connection_index(self.num_connections_per_peer)
    }
}

/// Round trip of a served response: serializing the pairs a request's keys
/// read from the installed snapshot and deserializing them again yields,
/// for every key, exactly the value the snapshot slot returned for it, in
/// request order.
pub proof fn lemma_served_response_round_trip(slot: StateViewSlot, keys: Seq<Seq<u8>>)
    requires
        slot.wf(),
        keys.len() <= MAX_LEN as nat,
        crate::codec::key_list_fits(keys),
        keys.len() > 0 ==> slot.spec_is_installed(),
    ensures
        crate::codec::spec_decode_response(spec_encode_response(response_pairs(slot, keys)))
            == Some(response_pairs(slot, keys)),
{
    let pairs = response_pairs(slot, keys);
    assert forall|j: int| 0 <= j < pairs.len() implies (#[trigger] pairs[j].0.len()
        <= MAX_LEN as nat && (pairs[j].1 is Some ==> (pairs[j].1->0).len() <= MAX_LEN as nat)) by {
        assert(pairs[j] == (keys[j], slot.spec_value_of(keys[j])));
        assert(keys[j].len() <= MAX_LEN as nat);
        if slot.spec_value_of(keys[j]) is Some {
            lemma_snapshot_value_fits(slot.spec_view()->0, keys[j]);
        }
    }
    crate::codec::lemma_response_round_trip(pairs);
}

/// Relies on `rand::random_range`: a uniform draw from `0 .. n`, which for
/// non-empty ranges always lies inside the range.  Nothing more is assumed
/// of the draw — no two calls need agree.
#[verifier::external_body]
fn pick_connection_index(n: usize) -> (r: usize)
    requires
        n > 0,
    ensures
        r < n,
{
    rand::random_range(0..n)
}

} // verus!
