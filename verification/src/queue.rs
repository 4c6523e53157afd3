//! The bucketed priority queue of inbound requests.
//!
//! Requests are filed under a priority bucket derived from their per-shard
//! sequence number: runs of [`BUCKET_SIZE`] consecutive sequence numbers
//! share a bucket, which trades strict arrival order for parallel draining.
//! The one ordering guarantee, proved in [`lemma_pop_serves_lowest_bucket`],
//! is that the queue never serves a bucket while a lower bucket still holds
//! an entry.  Within a bucket, entries leave in arrival order.
//!
//! The concurrent structure itself comes from the `cpq` crate; its behaviour
//! under exclusive access is stated over [`queue_entries`], the entries in
//! push order.

use crate::message::Message;
use cpq::ConcurrentPriorityQueue;
use vstd::prelude::*;

verus! {

#[verifier::external_type_specification]
#[verifier::external_body]
#[verifier::reject_recursive_types(I)]
#[verifier::reject_recursive_types(P)]
pub struct ExConcurrentPriorityQueue<I, P>(ConcurrentPriorityQueue<I, P>);

/// What the queue holds: its (priority, envelope) entries, in push order.
pub uninterp spec fn queue_entries(q: ConcurrentPriorityQueue<Message, u64>) -> Seq<(u64, Message)>;

/// How many consecutive sequence numbers share one priority bucket.
pub const BUCKET_SIZE: u64 = 200;

/// The priority bucket of a sequence number: sequence numbers
/// `0 .. BUCKET_SIZE - 1` fall in bucket 1, the next run in bucket 2, and
/// so on.
pub open spec fn spec_bucket_of(seq_num: u64) -> u64 {
    (seq_num / (BUCKET_SIZE as u64) + 1) as u64
}

/// Computes the priority bucket of a sequence number.
pub fn bucket_of(seq_num: u64) -> (b: u64)
    ensures
        b == spec_bucket_of(seq_num),
{
    seq_num / BUCKET_SIZE + 1
}

/// Buckets never decrease as sequence numbers grow.
pub proof fn lemma_bucket_monotonic(a: u64, b: u64)
    requires
        a <= b,
    ensures
        spec_bucket_of(a) <= spec_bucket_of(b),
{
    vstd::arithmetic::div_mod::lemma_div_is_ordered(a as int, b as int, BUCKET_SIZE as int);
}

/// The smallest priority among the entries of `s`.
pub open spec fn min_priority(s: Seq<(u64, Message)>) -> u64
    decreases s.len(),
{
    if s.len() <= 1 {
        s[0].0
    } else {
        let m = min_priority(s.drop_first());
        if s[0].0 <= m {
            s[0].0
        } else {
            m
        }
    }
}

/// The first index whose entry carries the smallest priority.
pub open spec fn first_min_index(s: Seq<(u64, Message)>) -> int
    decreases s.len(),
{
    if s.len() <= 1 {
        0
    } else if s[0].0 <= min_priority(s.drop_first()) {
        0
    } else {
        1 + first_min_index(s.drop_first())
    }
}

/// `first_min_index` names a real entry, that entry carries the smallest
/// priority, and no entry carries a smaller one.
pub proof fn lemma_min_priority(s: Seq<(u64, Message)>)
    requires
        s.len() > 0,
    ensures
        0 <= first_min_index(s) < s.len(),
        s[first_min_index(s)].0 == min_priority(s),
        forall|j: int| 0 <= j < s.len() ==> min_priority(s) <= #[trigger] s[j].0,
    decreases s.len(),
{
    if s.len() > 1 {
        lemma_min_priority(s.drop_first());
        assert forall|j: int| 0 <= j < s.len() implies min_priority(s) <= #[trigger] s[j].0 by {
            if j >= 1 {
                assert(s.drop_first()[j - 1] == s[j]);
                assert(min_priority(s.drop_first()) <= s.drop_first()[j - 1].0);
            }
        }
    }
}

/// The queue never serves a higher bucket while a lower one is non-empty:
/// whatever entry is present, a pop takes an entry of priority no larger.
pub proof fn lemma_pop_serves_lowest_bucket(s: Seq<(u64, Message)>, j: int)
    requires
        0 <= j < s.len(),
    ensures
        s[first_min_index(s)].0 <= s[j].0,
{
    lemma_min_priority(s);
}

/// Draining without interleaved pushes serves buckets in non-decreasing
/// order: after a pop, the smallest remaining priority is no smaller than
/// the one just served.
pub proof fn lemma_drain_order_nondecreasing(s: Seq<(u64, Message)>)
    requires
        s.len() > 1,
    ensures
        min_priority(s.remove(first_min_index(s))) >= min_priority(s),
{
    lemma_min_priority(s);
    let i = first_min_index(s);
    let t = s.remove(i);
    lemma_min_priority(t);
    let j = first_min_index(t);
    if j < i {
        assert(t[j] == s[j]);
    } else {
        assert(t[j] == s[j + 1]);
    }
}

/// Relies on `cpq::ConcurrentPriorityQueue::new`: a fresh queue holds no
/// entries.
#[verifier::external_body]
fn pq_new() -> (q: ConcurrentPriorityQueue<Message, u64>)
    ensures
        queue_entries(q) == Seq::<(u64, Message)>::empty(),
{
    ConcurrentPriorityQueue::new()
}

/// Relies on `cpq::ConcurrentPriorityQueue::push`: under exclusive access
/// the entry joins the back of its priority bucket, so in push order the
/// entries grow by one at the end.
#[verifier::external_body]
fn pq_push(q: &mut ConcurrentPriorityQueue<Message, u64>, item: Message, priority: u64)
    ensures
        queue_entries(*final(q)) == queue_entries(*old(q)).push((priority, item)),
{
    q.push(item, priority)
}

/// Relies on `cpq::ConcurrentPriorityQueue::pop`: under exclusive access it
/// takes the front of the lowest-priority non-empty bucket, which in push
/// order is the first entry carrying the smallest priority; an empty queue
/// yields nothing and stays empty.
#[verifier::external_body]
fn pq_pop(q: &mut ConcurrentPriorityQueue<Message, u64>) -> (r: Option<Message>)
    ensures
        ({
            let s = queue_entries(*old(q));
            if s.len() == 0 {
                r is None && queue_entries(*final(q)) == s
            } else {
                r is Some && r->0 == s[first_min_index(s)].1 && queue_entries(*final(q))
                    == s.remove(first_min_index(s))
            }
        }),
{
    q.pop()
}

/// Relies on `cpq::ConcurrentPriorityQueue::len`: the queue counts one per
/// push and one down per successful pop, so under exclusive access it equals
/// the number of entries.
#[verifier::external_body]
fn pq_len(q: &ConcurrentPriorityQueue<Message, u64>) -> (n: usize)
    ensures
        n == queue_entries(*q).len(),
{
    q.len()
}

/// The queue of not-yet-processed inbound requests, ordered by priority
/// bucket.
pub struct PriorityRequestQueue {
    inner: ConcurrentPriorityQueue<Message, u64>,
}

impl PriorityRequestQueue {
    /// The (bucket, envelope) entries the queue holds, in push order.
    pub closed spec fn entries(&self) -> Seq<(u64, Message)> {
        queue_entries(self.inner)
    }

    /// An empty queue.
    pub fn new() -> (q: Self)
        ensures
            q.entries() == Seq::<(u64, Message)>::empty(),
    {
        PriorityRequestQueue { inner: pq_new() }
    }

    /// Files `msg` under the priority bucket of its sequence number.
    pub fn push(&mut self, msg: Message)
        requires
            msg.seq_num is Some,
        ensures
            final(self).entries() == old(self).entries().push(
                (spec_bucket_of(msg.seq_num->0), msg),
            ),
    {
        let seq_num = match msg.seq_num {
            Some(n) => n,
            None => {
                proof {
                    assert(false);
                }
                0
            },
        };
        let bucket = bucket_of(seq_num);
        pq_push(&mut self.inner, msg, bucket);
    }

    /// Takes the first-filed entry of the lowest non-empty bucket, or
    /// nothing from an empty queue.
    pub fn pop(&mut self) -> (r: Option<Message>)
        ensures
            ({
                let s = old(self).entries();
                if s.len() == 0 {
                    r is None && final(self).entries() == s
                } else {
                    r is Some && r->0 == s[first_min_index(s)].1 && final(self).entries()
                        == s.remove(first_min_index(s))
                }
            }),
    {
        pq_pop(&mut self.inner)
    }

    /// How many entries the queue holds; for instrumentation.
    pub fn len(&self) -> (n: usize)
        ensures
            n == self.entries().len(),
    {
        pq_len(&self.inner)
    }

    /// Whether the queue holds no entry.
    pub fn is_empty(&self) -> (r: bool)
        ensures
            r == (self.entries().len() == 0),
    {
        self.len() == 0
    }
}

} // verus!
