//! The wire format of the key/value request and response payloads.
//!
//! The format follows the binary-canonical conventions the surrounding
//! system uses everywhere: unsigned 64-bit integers as eight little-endian
//! bytes, sequence lengths as ULEB128 (capped at 32 bits), byte strings as
//! a length followed by the raw bytes, and options as a one-byte tag.
//!
//! A request payload is `(shard id, list of keys)`; a response payload is a
//! list of `(key, optional value)` pairs, in request order.  Encoding and
//! decoding are proved to invert each other.

use crate::message::keys_view;
use crate::message::pairs_view;
use crate::message::RemoteKVRequest;
use crate::message::RemoteKVResponse;
use crate::state_data::opt_value_view;
use crate::state_data::StateKey;
use crate::state_data::StateValue;
use vstd::arithmetic::div_mod::lemma_fundamental_div_mod;
use vstd::prelude::*;

verus! {

/// The largest value the format stores as a sequence length.
pub const MAX_LEN: u64 = 0xFFFF_FFFF;

/// How many continuation bytes a length encoding may use beyond its first
/// byte; five bytes cover every 32-bit length.
pub const ULEB_BUDGET: u64 = 4;

/// 128 raised to `e`.
pub open spec fn pow128(e: nat) -> nat
    decreases e,
{
    if e == 0 {
        1
    } else {
        128 * pow128((e - 1) as nat)
    }
}

/// The ULEB128 encoding of `n`: seven value bits per byte, least significant
/// group first, the high bit of a byte marking a continuation.
pub open spec fn enc_uleb(n: nat) -> Seq<u8>
    decreases n,
{
    if n < 128 {
        seq![n as u8]
    } else {
        seq![(128 + (n % 128)) as u8] + enc_uleb(n / 128)
    }
}

/// Decodes a ULEB128 value from the front of `s`, allowing at most `budget`
/// continuation bytes; returns the value and the remainder of the stream.
pub open spec fn dec_uleb_rec(s: Seq<u8>, budget: nat) -> Option<(nat, Seq<u8>)>
    decreases s.len(),
{
    if s.len() == 0 {
        None
    } else if s[0] < 128 {
        Some((s[0] as nat, s.drop_first()))
    } else if budget == 0 {
        None
    } else {
        match dec_uleb_rec(s.drop_first(), (budget - 1) as nat) {
            Some((v, rest)) => Some((((s[0] - 128) + 128 * v) as nat, rest)),
            None => None,
        }
    }
}

/// Decodes a sequence length from the front of `s`: a ULEB128 value of at
/// most [`MAX_LEN`], read from at most five bytes.
pub open spec fn dec_len(s: Seq<u8>) -> Option<(nat, Seq<u8>)> {
    match dec_uleb_rec(s, ULEB_BUDGET as nat) {
        Some((v, rest)) => if v <= MAX_LEN as nat {
            Some((v, rest))
        } else {
            None
        },
        None => None,
    }
}

/// Encoding a length and then decoding it from the front of any stream
/// yields the length back and leaves the rest untouched.
pub proof fn lemma_uleb_round_trip(n: nat, rest: Seq<u8>, budget: nat)
    requires
        n < pow128(budget + 1),
    ensures
        dec_uleb_rec(enc_uleb(n) + rest, budget) == Some((n, rest)),
    decreases n,
{
    if n < 128 {
        let s = enc_uleb(n) + rest;
        assert(s[0] == n as u8);
        assert(s.drop_first() =~= rest);
    } else {
        let b: u8 = (128 + (n % 128)) as u8;
        let s = enc_uleb(n) + rest;
        assert(s[0] == b);
        assert(b >= 128);
        // The budget suffices for the continuation: n >= 128 rules out budget 0.
        assert(pow128(0) == 1);
        assert(pow128(1) == 128);
        if budget == 0 {
            assert(n < pow128(1));
            assert(false);
        }
        // n / 128 stays within the reduced budget.
        assert(n / 128 < pow128(budget)) by {
            lemma_fundamental_div_mod(n as int, 128);
            assert(n == 128 * (n / 128) + n % 128);
            if n / 128 >= pow128(budget) {
                assert(pow128(budget + 1) == 128 * pow128(budget));
                assert(128 * (n / 128) >= 128 * pow128(budget)) by (nonlinear_arith)
                    requires
                        n / 128 >= pow128(budget),
                ;
                assert(false);
            }
        }
        assert(n / 128 < n) by {
            lemma_fundamental_div_mod(n as int, 128);
        }
        lemma_uleb_round_trip(n / 128, rest, (budget - 1) as nat);
        assert(s.drop_first() =~= enc_uleb(n / 128) + rest);
        lemma_fundamental_div_mod(n as int, 128);
        assert((s[0] - 128) + 128 * (n / 128) == n);
    }
}

/// A length of at most [`MAX_LEN`] encodes within the five-byte budget.
pub proof fn lemma_len_round_trip(n: nat, rest: Seq<u8>)
    requires
        n <= MAX_LEN as nat,
    ensures
        dec_len(enc_uleb(n) + rest) == Some((n, rest)),
{
    assert(pow128(0) == 1);
    assert(pow128(1) == 128);
    assert(pow128(2) == 16384);
    assert(pow128(3) == 2097152);
    assert(pow128(4) == 268435456);
    assert(pow128(5) == 34359738368);
    lemma_uleb_round_trip(n, rest, ULEB_BUDGET as nat);
}

/// An unsigned 64-bit integer as eight little-endian bytes.
pub open spec fn enc_u64(v: u64) -> Seq<u8> {
    seq![
        (v & 0xff) as u8,
        ((v >> 8) & 0xff) as u8,
        ((v >> 16) & 0xff) as u8,
        ((v >> 24) & 0xff) as u8,
        ((v >> 32) & 0xff) as u8,
        ((v >> 40) & 0xff) as u8,
        ((v >> 48) & 0xff) as u8,
        ((v >> 56) & 0xff) as u8,
    ]
}

/// The value of eight little-endian bytes at the front of `s`.
pub open spec fn u64_of_le(s: Seq<u8>) -> u64 {
    ((s[0] as u64) | (s[1] as u64) << 8 | (s[2] as u64) << 16 | (s[3] as u64) << 24 | (
    s[4] as u64) << 32 | (s[5] as u64) << 40 | (s[6] as u64) << 48 | (s[7] as u64) << 56) as u64
}

/// Decodes an unsigned 64-bit integer from the front of `s`.
pub open spec fn dec_u64(s: Seq<u8>) -> Option<(u64, Seq<u8>)> {
    if s.len() < 8 {
        None
    } else {
        Some((u64_of_le(s), s.skip(8)))
    }
}

/// Splitting a 64-bit value into its eight bytes and reassembling them
/// little-endian first yields the value back.
pub proof fn lemma_u64_round_trip(v: u64, rest: Seq<u8>)
    ensures
        dec_u64(enc_u64(v) + rest) == Some((v, rest)),
{
    let s = enc_u64(v) + rest;
    assert(s.skip(8) =~= rest);
    assert(((v & 0xff) as u8 as u64) | (((v >> 8) & 0xff) as u8 as u64) << 8 | (((v >> 16)
        & 0xff) as u8 as u64) << 16 | (((v >> 24) & 0xff) as u8 as u64) << 24 | (((v >> 32)
        & 0xff) as u8 as u64) << 32 | (((v >> 40) & 0xff) as u8 as u64) << 40 | (((v >> 48)
        & 0xff) as u8 as u64) << 48 | (((v >> 56) & 0xff) as u8 as u64) << 56 == v)
        by (bit_vector);
    assert(s[0] == (v & 0xff) as u8);
    assert(s[1] == ((v >> 8) & 0xff) as u8);
    assert(s[2] == ((v >> 16) & 0xff) as u8);
    assert(s[3] == ((v >> 24) & 0xff) as u8);
    assert(s[4] == ((v >> 32) & 0xff) as u8);
    assert(s[5] == ((v >> 40) & 0xff) as u8);
    assert(s[6] == ((v >> 48) & 0xff) as u8);
    assert(s[7] == ((v >> 56) & 0xff) as u8);
}

/// A byte string: its length, then its raw bytes.
pub open spec fn enc_bytes(b: Seq<u8>) -> Seq<u8> {
    enc_uleb(b.len()) + b
}

/// Decodes a byte string from the front of `s`.
pub open spec fn dec_bytes(s: Seq<u8>) -> Option<(Seq<u8>, Seq<u8>)> {
    match dec_len(s) {
        Some((n, rest)) => if n <= rest.len() {
            Some((rest.take(n as int), rest.skip(n as int)))
        } else {
            None
        },
        None => None,
    }
}

/// Encoding a byte string of length at most [`MAX_LEN`] and decoding it from
/// the front of any stream yields the bytes back.
pub proof fn lemma_bytes_round_trip(b: Seq<u8>, rest: Seq<u8>)
    requires
        b.len() <= MAX_LEN as nat,
    ensures
        dec_bytes(enc_bytes(b) + rest) == Some((b, rest)),
{
    lemma_len_round_trip(b.len(), b + rest);
    assert(enc_bytes(b) + rest =~= enc_uleb(b.len()) + (b + rest));
    assert((b + rest).take(b.len() as int) =~= b);
    assert((b + rest).skip(b.len() as int) =~= rest);
}

/// An optional byte string: a tag byte, then the bytes when present.
pub open spec fn enc_opt_bytes(v: Option<Seq<u8>>) -> Seq<u8> {
    match v {
        None => seq![0u8],
        Some(b) => seq![1u8] + enc_bytes(b),
    }
}

/// Decodes an optional byte string from the front of `s`.
pub open spec fn dec_opt_bytes(s: Seq<u8>) -> Option<(Option<Seq<u8>>, Seq<u8>)> {
    if s.len() == 0 {
        None
    } else if s[0] == 0 {
        Some((None, s.drop_first()))
    } else if s[0] == 1 {
        match dec_bytes(s.drop_first()) {
            Some((b, rest)) => Some((Some(b), rest)),
            None => None,
        }
    } else {
        None
    }
}

/// Encoding an optional byte string and decoding it from the front of any
/// stream yields the option back.
pub proof fn lemma_opt_bytes_round_trip(v: Option<Seq<u8>>, rest: Seq<u8>)
    requires
        v is Some ==> v->0.len() <= MAX_LEN as nat,
    ensures
        dec_opt_bytes(enc_opt_bytes(v) + rest) == Some((v, rest)),
{
    match v {
        None => {
            assert((enc_opt_bytes(v) + rest).drop_first() =~= rest);
        },
        Some(b) => {
            let s = enc_opt_bytes(v) + rest;
            assert(s[0] == 1);
            assert(s.drop_first() =~= enc_bytes(b) + rest);
            lemma_bytes_round_trip(b, rest);
        },
    }
}

/// A list of byte strings, one after another (the count travels separately).
pub open spec fn enc_key_list(keys: Seq<Seq<u8>>) -> Seq<u8>
    decreases keys.len(),
{
    if keys.len() == 0 {
        Seq::empty()
    } else {
        enc_bytes(keys[0]) + enc_key_list(keys.drop_first())
    }
}

/// Decodes `count` byte strings from the front of `s`.
pub open spec fn dec_key_list(s: Seq<u8>, count: nat) -> Option<(Seq<Seq<u8>>, Seq<u8>)>
    decreases count,
{
    if count == 0 {
        Some((Seq::empty(), s))
    } else {
        match dec_bytes(s) {
            Some((b, rest)) => match dec_key_list(rest, (count - 1) as nat) {
                Some((ks, rest2)) => Some((seq![b] + ks, rest2)),
                None => None,
            },
            None => None,
        }
    }
}

/// Whether every byte string of `keys` fits the length cap.
pub open spec fn key_list_fits(keys: Seq<Seq<u8>>) -> bool {
    forall|i: int| 0 <= i < keys.len() ==> #[trigger] keys[i].len() <= MAX_LEN as nat
}

/// Encoding a list of byte strings and decoding as many from the front of
/// any stream yields the list back.
pub proof fn lemma_key_list_round_trip(keys: Seq<Seq<u8>>, rest: Seq<u8>)
    requires
        key_list_fits(keys),
    ensures
        dec_key_list(enc_key_list(keys) + rest, keys.len()) == Some((keys, rest)),
    decreases keys.len(),
{
    if keys.len() == 0 {
        assert(enc_key_list(keys) + rest =~= rest);
    } else {
        let tail = keys.drop_first();
        lemma_bytes_round_trip(keys[0], enc_key_list(tail) + rest);
        assert(enc_key_list(keys) + rest =~= enc_bytes(keys[0]) + (enc_key_list(tail) + rest));
        lemma_key_list_round_trip(tail, rest);
        assert(seq![keys[0]] + tail =~= keys);
    }
}

/// A list of (key, optional value) pairs, one after another.
pub open spec fn enc_pair_list(pairs: Seq<(Seq<u8>, Option<Seq<u8>>)>) -> Seq<u8>
    decreases pairs.len(),
{
    if pairs.len() == 0 {
        Seq::empty()
    } else {
        enc_bytes(pairs[0].0) + enc_opt_bytes(pairs[0].1) + enc_pair_list(pairs.drop_first())
    }
}

/// Decodes `count` (key, optional value) pairs from the front of `s`.
pub open spec fn dec_pair_list(s: Seq<u8>, count: nat) -> Option<
    (Seq<(Seq<u8>, Option<Seq<u8>>)>, Seq<u8>),
>
    decreases count,
{
    if count == 0 {
        Some((Seq::empty(), s))
    } else {
        match dec_bytes(s) {
            Some((k, rest)) => match dec_opt_bytes(rest) {
                Some((v, rest2)) => match dec_pair_list(rest2, (count - 1) as nat) {
                    Some((ps, rest3)) => Some((seq![(k, v)] + ps, rest3)),
                    None => None,
                },
                None => None,
            },
            None => None,
        }
    }
}

/// Whether every key and every present value of `pairs` fits the length cap.
pub open spec fn pair_list_fits(pairs: Seq<(Seq<u8>, Option<Seq<u8>>)>) -> bool {
    forall|i: int| 0 <= i < pairs.len() ==> (#[trigger] pairs[i].0.len() <= MAX_LEN as nat && (
    pairs[i].1 is Some ==> pairs[i].1->0.len() <= MAX_LEN as nat))
}

/// Encoding a list of pairs and decoding as many from the front of any
/// stream yields the list back.
pub proof fn lemma_pair_list_round_trip(pairs: Seq<(Seq<u8>, Option<Seq<u8>>)>, rest: Seq<u8>)
    requires
        pair_list_fits(pairs),
    ensures
        dec_pair_list(enc_pair_list(pairs) + rest, pairs.len()) == Some((pairs, rest)),
    decreases pairs.len(),
{
    if pairs.len() == 0 {
        assert(enc_pair_list(pairs) + rest =~= rest);
    } else {
        let tail = pairs.drop_first();
        let after_key = enc_opt_bytes(pairs[0].1) + enc_pair_list(tail) + rest;
        lemma_bytes_round_trip(pairs[0].0, after_key);
        assert(enc_pair_list(pairs) + rest =~= enc_bytes(pairs[0].0) + after_key);
        lemma_opt_bytes_round_trip(pairs[0].1, enc_pair_list(tail) + rest);
        assert(after_key =~= enc_opt_bytes(pairs[0].1) + (enc_pair_list(tail) + rest));
        lemma_pair_list_round_trip(tail, rest);
        assert(seq![(pairs[0].0, pairs[0].1)] + tail =~= pairs);
    }
}

/// The encoded request payload: the asking shard, the key count, then the
/// keys.
pub open spec fn spec_encode_request(shard_id: u64, keys: Seq<Seq<u8>>) -> Seq<u8> {
    enc_u64(shard_id) + enc_uleb(keys.len()) + enc_key_list(keys)
}

/// Decodes a request payload.  The whole stream must be consumed.
pub open spec fn spec_decode_request(s: Seq<u8>) -> Option<(u64, Seq<Seq<u8>>)> {
    match dec_u64(s) {
        Some((shard_id, rest)) => match dec_len(rest) {
            Some((count, rest2)) => match dec_key_list(rest2, count) {
                Some((keys, rest3)) => if rest3.len() == 0 {
                    Some((shard_id, keys))
                } else {
                    None
                },
                None => None,
            },
            None => None,
        },
        None => None,
    }
}

/// The encoded response payload: the pair count, then the pairs.
pub open spec fn spec_encode_response(pairs: Seq<(Seq<u8>, Option<Seq<u8>>)>) -> Seq<u8> {
    enc_uleb(pairs.len()) + enc_pair_list(pairs)
}

/// Decodes a response payload.  The whole stream must be consumed.
pub open spec fn spec_decode_response(s: Seq<u8>) -> Option<Seq<(Seq<u8>, Option<Seq<u8>>)>> {
    match dec_len(s) {
        Some((count, rest)) => match dec_pair_list(rest, count) {
            Some((pairs, rest2)) => if rest2.len() == 0 {
                Some(pairs)
            } else {
                None
            },
            None => None,
        },
        None => None,
    }
}

/// Round trip of a request payload: decoding an encoded request yields the
/// same shard and the same keys, in order and with multiplicity.
pub proof fn lemma_request_round_trip(shard_id: u64, keys: Seq<Seq<u8>>)
    requires
        keys.len() <= MAX_LEN as nat,
        key_list_fits(keys),
    ensures
        spec_decode_request(spec_encode_request(shard_id, keys)) == Some((shard_id, keys)),
{
    let payload = spec_encode_request(shard_id, keys);
    lemma_u64_round_trip(shard_id, enc_uleb(keys.len()) + enc_key_list(keys));
    assert(payload =~= enc_u64(shard_id) + (enc_uleb(keys.len()) + enc_key_list(keys)));
    lemma_len_round_trip(keys.len(), enc_key_list(keys));
    assert(enc_uleb(keys.len()) + enc_key_list(keys) =~= enc_uleb(keys.len()) + (enc_key_list(
        keys,
    ) + Seq::<u8>::empty()));
    lemma_key_list_round_trip(keys, Seq::empty());
    assert(enc_key_list(keys) + Seq::<u8>::empty() =~= enc_key_list(keys));
}

/// A decoded ULEB128 value stays below 128 to the power of the byte budget.
pub proof fn lemma_uleb_value_bound(s: Seq<u8>, budget: nat)
    ensures
        dec_uleb_rec(s, budget) is Some ==> (dec_uleb_rec(s, budget)->0).0 < pow128(budget + 1),
    decreases s.len(),
{
    if s.len() == 0 {
    } else if s[0] < 128 {
        assert(pow128(budget + 1) >= 128) by {
            lemma_pow128_at_least(budget + 1);
        }
    } else if budget == 0 {
    } else {
        lemma_uleb_value_bound(s.drop_first(), (budget - 1) as nat);
        if dec_uleb_rec(s.drop_first(), (budget - 1) as nat) is Some {
            let v = (dec_uleb_rec(s.drop_first(), (budget - 1) as nat)->0).0;
            assert((s[0] - 128) + 128 * v < 128 * pow128(budget)) by (nonlinear_arith)
                requires
                    v < pow128(budget),
                    s[0] < 256,
                    s[0] >= 128,
            ;
        }
    }
}

/// 128 to a positive power is at least 128.
proof fn lemma_pow128_at_least(e: nat)
    requires
        e >= 1,
    ensures
        pow128(e) >= 128,
    decreases e,
{
    if e == 1 {
        assert(pow128(0) == 1);
    } else {
        lemma_pow128_at_least((e - 1) as nat);
    }
}

/// Appends the ULEB128 encoding of `n` to `out`.
#[verifier::loop_isolation(false)]
pub fn encode_uleb_into(out: &mut Vec<u8>, n: u64)
    ensures
        final(out)@ == old(out)@ + enc_uleb(n as nat),
{
    let ghost orig = out@;
    let mut m: u64 = n;
    loop
        invariant
            orig + enc_uleb(n as nat) =~= out@ + enc_uleb(m as nat),
        decreases m,
    {
        if m < 128 {
            out.push(m as u8);
            proof {
                assert(enc_uleb(m as nat) =~= seq![m as u8]);
                assert(out@ =~= orig + enc_uleb(n as nat));
            }
            return ;
        } else {
            let digit: u8 = (128 + (m % 128)) as u8;
            out.push(digit);
            proof {
                assert(enc_uleb(m as nat) =~= seq![digit] + enc_uleb((m as nat) / 128));
                assert((m as nat) / 128 == (m / 128) as nat);
                assert(out@ + enc_uleb((m / 128) as nat) =~= orig + enc_uleb(n as nat));
            }
            m = m / 128;
        }
    }
}

/// Decodes a ULEB128 value from `buf` at `pos`, allowing at most `budget`
/// continuation bytes; returns the value and the position after it.
fn decode_uleb_from(buf: &Vec<u8>, pos: usize, budget: u64) -> (r: Option<(u64, usize)>)
    requires
        pos <= buf@.len(),
        budget <= ULEB_BUDGET,
    ensures
        match dec_uleb_rec(buf@.skip(pos as int), budget as nat) {
            Some((v, rest)) => r is Some && (r->0).0 == v && pos < (r->0).1 <= buf@.len() && buf@.skip(
                (r->0).1 as int,
            ) == rest,
            None => r is None,
        },
    decreases budget,
{
    let ghost s = buf@.skip(pos as int);
    if pos == buf.len() {
        return None;
    }
    let b = buf[pos];
    proof {
        assert(s[0] == b);
        assert(s.drop_first() =~= buf@.skip(pos as int + 1));
    }
    if b < 128 {
        Some((b as u64, pos + 1))
    } else if budget == 0 {
        None
    } else {
        match decode_uleb_from(buf, pos + 1, budget - 1) {
            Some((v, after)) => {
                proof {
                    lemma_uleb_value_bound(buf@.skip(pos as int + 1), (budget - 1) as nat);
                    assert(pow128(budget as nat) <= pow128(5)) by {
                        lemma_pow128_nondecreasing(budget as nat, 5);
                    }
                    assert(pow128(0) == 1);
                    assert(pow128(1) == 128);
                    assert(pow128(2) == 16384);
                    assert(pow128(3) == 2097152);
                    assert(pow128(4) == 268435456);
                    assert(pow128(5) == 34359738368);
                }
                let value: u64 = (b - 128) as u64 + 128 * v;
                Some((value, after))
            },
            None => None,
        }
    }
}

/// 128 to a power does not shrink as the power grows.
proof fn lemma_pow128_nondecreasing(a: nat, b: nat)
    requires
        a <= b,
    ensures
        pow128(a) <= pow128(b),
    decreases b,
{
    if a < b {
        lemma_pow128_nondecreasing(a, (b - 1) as nat);
        assert(pow128(b) == 128 * pow128((b - 1) as nat));
        assert(pow128((b - 1) as nat) <= 128 * pow128((b - 1) as nat)) by (nonlinear_arith)
            requires
                pow128((b - 1) as nat) >= 0,
        ;
    }
}

/// Decodes a sequence length from `buf` at `pos`.
pub fn decode_len_from(buf: &Vec<u8>, pos: usize) -> (r: Option<(u64, usize)>)
    requires
        pos <= buf@.len(),
    ensures
        match dec_len(buf@.skip(pos as int)) {
            Some((v, rest)) => r is Some && (r->0).0 == v && (r->0).0 <= MAX_LEN && pos < (r->0).1
                <= buf@.len() && buf@.skip((r->0).1 as int) == rest,
            None => r is None,
        },
{
    match decode_uleb_from(buf, pos, ULEB_BUDGET) {
        Some((v, after)) => {
            if v <= MAX_LEN {
                Some((v, after))
            } else {
                None
            }
        },
        None => None,
    }
}

/// Appends the eight little-endian bytes of `v` to `out`.
pub fn encode_u64_into(out: &mut Vec<u8>, v: u64)
    ensures
        final(out)@ == old(out)@ + enc_u64(v),
{
    out.push((v & 0xff) as u8);
    out.push(((v >> 8) & 0xff) as u8);
    out.push(((v >> 16) & 0xff) as u8);
    out.push(((v >> 24) & 0xff) as u8);
    out.push(((v >> 32) & 0xff) as u8);
    out.push(((v >> 40) & 0xff) as u8);
    out.push(((v >> 48) & 0xff) as u8);
    out.push(((v >> 56) & 0xff) as u8);
    proof {
        assert(out@ =~= old(out)@ + enc_u64(v));
    }
}

/// Decodes an unsigned 64-bit integer from `buf` at `pos`.
pub fn decode_u64_from(buf: &Vec<u8>, pos: usize) -> (r: Option<(u64, usize)>)
    requires
        pos <= buf@.len(),
    ensures
        match dec_u64(buf@.skip(pos as int)) {
            Some((v, rest)) => r == Some((v, (pos + 8) as usize)) && buf@.skip(pos as int + 8)
                == rest,
            None => r is None,
        },
{
    let ghost s = buf@.skip(pos as int);
    if buf.len() - pos < 8 {
        return None;
    }
    let v: u64 = (buf[pos] as u64) | (buf[pos + 1] as u64) << 8 | (buf[pos + 2] as u64) << 16 | (
    buf[pos + 3] as u64) << 24 | (buf[pos + 4] as u64) << 32 | (buf[pos + 5] as u64) << 40 | (
    buf[pos + 6] as u64) << 48 | (buf[pos + 7] as u64) << 56;
    proof {
        assert(s[0] == buf@[pos as int]);
        assert(s[1] == buf@[pos as int + 1]);
        assert(s[2] == buf@[pos as int + 2]);
        assert(s[3] == buf@[pos as int + 3]);
        assert(s[4] == buf@[pos as int + 4]);
        assert(s[5] == buf@[pos as int + 5]);
        assert(s[6] == buf@[pos as int + 6]);
        assert(s[7] == buf@[pos as int + 7]);
        assert(s.skip(8) =~= buf@.skip(pos as int + 8));
    }
    Some((v, pos + 8))
}

/// Appends the bytes of `b` to `out`.
pub fn push_bytes(out: &mut Vec<u8>, b: &Vec<u8>)
    ensures
        final(out)@ == old(out)@ + b@,
{
    let n = b.len();
    let mut i: usize = 0;
    while i < n
        invariant
            i <= n,
            n == b@.len(),
            out@ =~= old(out)@ + b@.take(i as int),
        decreases n - i,
    {
        out.push(b[i]);
        proof {
            assert(b@.take(i as int + 1) =~= b@.take(i as int).push(b@[i as int]));
        }
        i = i + 1;
    }
    proof {
        assert(b@.take(n as int) =~= b@);
        assert(out@ =~= old(out)@ + b@);
    }
}

/// Appends a length-prefixed byte string to `out`.
pub fn encode_bytes_into(out: &mut Vec<u8>, b: &Vec<u8>)
    requires
        b@.len() <= MAX_LEN,
    ensures
        final(out)@ == old(out)@ + enc_bytes(b@),
{
    encode_uleb_into(out, b.len() as u64);
    push_bytes(out, b);
    proof {
        assert(out@ =~= old(out)@ + enc_bytes(b@));
    }
}

/// Decodes a length-prefixed byte string from `buf` at `pos`.
pub fn decode_bytes_from(buf: &Vec<u8>, pos: usize) -> (r: Option<(Vec<u8>, usize)>)
    requires
        pos <= buf@.len(),
    ensures
        match dec_bytes(buf@.skip(pos as int)) {
            Some((b, rest)) => r is Some && (r->0).0@ == b && pos < (r->0).1 <= buf@.len() && buf@.skip(
                (r->0).1 as int,
            ) == rest,
            None => r is None,
        },
{
    let ghost s = buf@.skip(pos as int);
    match decode_len_from(buf, pos) {
        Some((n, after)) => {
            let remaining = buf.len() - after;
            if (n as usize) > remaining {
                proof {
                    let rest = buf@.skip(after as int);
                    assert(rest.len() == buf@.len() - after);
                }
                return None;
            }
            let n_usize = n as usize;
            let mut b: Vec<u8> = Vec::new();
            let mut i: usize = 0;
            while i < n_usize
                invariant
                    i <= n_usize,
                    after + n_usize <= buf@.len(),
                    buf@.len() <= usize::MAX,
                    b@ =~= buf@.skip(after as int).take(i as int),
                decreases n_usize - i,
            {
                b.push(buf[after + i]);
                proof {
                    let rest = buf@.skip(after as int);
                    assert(rest.take(i as int + 1) =~= rest.take(i as int).push(rest[i as int]));
                    assert(rest[i as int] == buf@[after + i]);
                }
                i = i + 1;
            }
            proof {
                let rest = buf@.skip(after as int);
                assert(rest.skip(n as int) =~= buf@.skip(after + n as int));
            }
            Some((b, after + n_usize))
        },
        None => None,
    }
}

/// Round trip of a response payload: decoding an encoded response yields the
/// same pairs, in order and with multiplicity.
pub proof fn lemma_response_round_trip(pairs: Seq<(Seq<u8>, Option<Seq<u8>>)>)
    requires
        pairs.len() <= MAX_LEN as nat,
        pair_list_fits(pairs),
    ensures
        spec_decode_response(spec_encode_response(pairs)) == Some(pairs),
{
    let payload = spec_encode_response(pairs);
    lemma_len_round_trip(pairs.len(), enc_pair_list(pairs));
    lemma_pair_list_round_trip(pairs, Seq::empty());
    assert(enc_pair_list(pairs) + Seq::<u8>::empty() =~= enc_pair_list(pairs));
}

/// Decoded byte strings respect the length cap: a decoded list holds
/// exactly `count` keys, each within [`MAX_LEN`].
pub proof fn lemma_dec_key_list_fits(s: Seq<u8>, count: nat)
    ensures
        dec_key_list(s, count) is Some ==> {
            let ks = (dec_key_list(s, count)->0).0;
            ks.len() == count && key_list_fits(ks)
        },
    decreases count,
{
    if count > 0 {
        match dec_bytes(s) {
            Some((b, rest)) => {
                lemma_dec_key_list_fits(rest, (count - 1) as nat);
                if dec_key_list(rest, (count - 1) as nat) is Some {
                    let tail = (dec_key_list(rest, (count - 1) as nat)->0).0;
                    let ks = seq![b] + tail;
                    assert(b.len() <= MAX_LEN as nat);
                    assert forall|i: int| 0 <= i < ks.len() implies #[trigger] ks[i].len()
                        <= MAX_LEN as nat by {
                        if i > 0 {
                            assert(ks[i] == tail[i - 1]);
                        }
                    }
                }
            },
            None => {},
        }
    }
}

/// A decoded request names at most [`MAX_LEN`] keys, each within the cap.
pub proof fn lemma_decoded_request_fits(s: Seq<u8>)
    ensures
        spec_decode_request(s) is Some ==> {
            let keys = (spec_decode_request(s)->0).1;
            keys.len() <= MAX_LEN as nat && key_list_fits(keys)
        },
{
    match dec_u64(s) {
        Some((shard_id, rest)) => {
            match dec_len(rest) {
                Some((count, rest2)) => {
                    lemma_dec_key_list_fits(rest2, count);
                },
                None => {},
            }
        },
        None => {},
    }
}

/// A key list encoding grows at its end as the list does.
pub proof fn lemma_enc_key_list_push(keys: Seq<Seq<u8>>, k: Seq<u8>)
    ensures
        enc_key_list(keys.push(k)) == enc_key_list(keys) + enc_bytes(k),
    decreases keys.len(),
{
    if keys.len() == 0 {
        assert(keys.push(k)[0] == k);
        assert(keys.push(k).drop_first() =~= Seq::<Seq<u8>>::empty());
        assert(enc_key_list(Seq::<Seq<u8>>::empty()) == Seq::<u8>::empty());
        assert(enc_key_list(keys.push(k)) == enc_bytes(k) + Seq::<u8>::empty());
        assert(enc_bytes(k) + Seq::<u8>::empty() =~= enc_bytes(k));
        assert(enc_key_list(keys) + enc_bytes(k) =~= enc_bytes(k));
    } else {
        assert(keys.push(k).drop_first() =~= keys.drop_first().push(k));
        lemma_enc_key_list_push(keys.drop_first(), k);
        assert(keys.push(k)[0] == keys[0]);
        assert(enc_bytes(keys[0]) + (enc_key_list(keys.drop_first()) + enc_bytes(k)) =~= (
        enc_bytes(keys[0]) + enc_key_list(keys.drop_first())) + enc_bytes(k));
    }
}

/// A pair list encoding grows at its end as the list does.
pub proof fn lemma_enc_pair_list_push(
    pairs: Seq<(Seq<u8>, Option<Seq<u8>>)>,
    p: (Seq<u8>, Option<Seq<u8>>),
)
    ensures
        enc_pair_list(pairs.push(p)) == enc_pair_list(pairs) + enc_bytes(p.0) + enc_opt_bytes(p.1),
    decreases pairs.len(),
{
    if pairs.len() == 0 {
        assert(pairs.push(p)[0] == p);
        assert(pairs.push(p).drop_first() =~= Seq::<(Seq<u8>, Option<Seq<u8>>)>::empty());
        assert(enc_pair_list(Seq::<(Seq<u8>, Option<Seq<u8>>)>::empty()) == Seq::<u8>::empty());
        assert(enc_pair_list(pairs.push(p)) == enc_bytes(p.0) + enc_opt_bytes(p.1)
            + Seq::<u8>::empty());
        assert(enc_bytes(p.0) + enc_opt_bytes(p.1) + Seq::<u8>::empty() =~= enc_bytes(p.0)
            + enc_opt_bytes(p.1));
        assert(enc_pair_list(pairs) + enc_bytes(p.0) + enc_opt_bytes(p.1) =~= enc_bytes(p.0)
            + enc_opt_bytes(p.1));
    } else {
        assert(pairs.push(p).drop_first() =~= pairs.drop_first().push(p));
        lemma_enc_pair_list_push(pairs.drop_first(), p);
        assert(pairs.push(p)[0] == pairs[0]);
        assert(enc_bytes(pairs[0].0) + enc_opt_bytes(pairs[0].1) + (enc_pair_list(
            pairs.drop_first(),
        ) + enc_bytes(p.0) + enc_opt_bytes(p.1)) =~= (enc_bytes(pairs[0].0) + enc_opt_bytes(
            pairs[0].1,
        ) + enc_pair_list(pairs.drop_first())) + enc_bytes(p.0) + enc_opt_bytes(p.1));
    }
}

/// Encodes a request payload: the asking shard and the keys it needs.
#[verifier::loop_isolation(false)]
pub fn encode_request(shard_id: u64, keys: &Vec<StateKey>) -> (r: Vec<u8>)
    requires
        keys@.len() <= MAX_LEN,
        key_list_fits(keys_view(keys@)),
    ensures
        r@ == spec_encode_request(shard_id, keys_view(keys@)),
{
    let ghost kv = keys_view(keys@);
    let mut out: Vec<u8> = Vec::new();
    encode_u64_into(&mut out, shard_id);
    encode_uleb_into(&mut out, keys.len() as u64);
    let n = keys.len();
    let mut i: usize = 0;
    proof {
        assert(kv.take(0) =~= Seq::<Seq<u8>>::empty());
        assert(out@ =~= enc_u64(shard_id) + enc_uleb(kv.len()) + enc_key_list(kv.take(0)));
    }
    while i < n
        invariant
            i <= n,
            out@ == enc_u64(shard_id) + enc_uleb(kv.len()) + enc_key_list(kv.take(i as int)),
        decreases n - i,
    {
        proof {
            assert(kv[i as int] == keys@[i as int]@);
            assert(kv[i as int].len() <= MAX_LEN as nat);
        }
        encode_bytes_into(&mut out, &keys[i].bytes);
        proof {
            assert(kv.take(i as int + 1) =~= kv.take(i as int).push(kv[i as int]));
            lemma_enc_key_list_push(kv.take(i as int), kv[i as int]);
            assert(out@ =~= enc_u64(shard_id) + enc_uleb(kv.len()) + enc_key_list(kv.take(
                i as int + 1,
            )));
        }
        i = i + 1;
    }
    proof {
        assert(kv.take(n as int) =~= kv);
    }
    out
}

/// Decodes a request payload.  Succeeds exactly on the streams the format
/// accepts, and then yields the shard and the keys the stream encodes.
#[verifier::loop_isolation(false)]
pub fn decode_request(buf: &Vec<u8>) -> (r: Option<RemoteKVRequest>)
    ensures
        match spec_decode_request(buf@) {
            Some((shard_id, ks)) => r is Some && (r->0).shard_id == shard_id && keys_view(
                (r->0).keys@,
            ) == ks,
            None => r is None,
        },
{
    let (shard_id, mut pos) = match decode_u64_from(buf, 0) {
        Some(p) => {
            proof {
                assert(buf@.skip(0) =~= buf@);
            }
            p
        },
        None => {
            proof {
                assert(buf@.skip(0) =~= buf@);
            }
            return None;
        },
    };
    let (count, after_len) = match decode_len_from(buf, pos) {
        Some(p) => p,
        None => {
            return None;
        },
    };
    pos = after_len;
    let ghost list_start = buf@.skip(pos as int);
    let mut ks: Vec<StateKey> = Vec::new();
    let mut i: u64 = 0;
    while i < count
        invariant
            i <= count,
            pos <= buf@.len(),
            keys_view(ks@).len() == i,
            buf@.skip(pos as int).len() == buf@.len() - pos,
            match dec_key_list(buf@.skip(pos as int), (count - i) as nat) {
                Some((tail, rest)) => dec_key_list(list_start, count as nat) == Some((keys_view(
                    ks@,
                ) + tail, rest)),
                None => dec_key_list(list_start, count as nat) is None,
            },
        decreases count - i,
    {
        match decode_bytes_from(buf, pos) {
            Some((b, newpos)) => {
                proof {
                    let prev = buf@.skip(pos as int);
                    let remaining = (count - i) as nat;
                    assert(dec_bytes(prev) == Some((b@, buf@.skip(newpos as int))));
                    assert(keys_view(ks@.push(StateKey { bytes: b })) =~= keys_view(ks@).push(b@));
                }
                ks.push(StateKey::new(b));
                pos = newpos;
                proof {
                    let tailopt = dec_key_list(buf@.skip(pos as int), (count - i - 1) as nat);
                    if tailopt is Some {
                        let (tail, rest) = tailopt->0;
                        assert(keys_view(ks@) + tail =~= keys_view(ks@.drop_last()) + (seq![
                            ks@.last()@,
                        ] + tail));
                    }
                }
                i = i + 1;
            },
            None => {
                return None;
            },
        }
    }
    proof {
        assert(dec_key_list(buf@.skip(pos as int), 0) == Some(
            (Seq::<Seq<u8>>::empty(), buf@.skip(pos as int)),
        ));
        assert(keys_view(ks@) + Seq::<Seq<u8>>::empty() =~= keys_view(ks@));
    }
    if pos != buf.len() {
        proof {
            assert(buf@.skip(pos as int).len() != 0);
        }
        return None;
    }
    proof {
        assert(buf@.skip(pos as int).len() == 0);
    }
    Some(RemoteKVRequest { shard_id, keys: ks })
}

/// Appends a tagged optional byte string to `out`.
pub fn encode_opt_bytes_into(out: &mut Vec<u8>, v: &Option<StateValue>)
    requires
        opt_value_view(*v) is Some ==> (opt_value_view(*v)->0).len() <= MAX_LEN,
    ensures
        final(out)@ == old(out)@ + enc_opt_bytes(opt_value_view(*v)),
{
    match v {
        None => {
            out.push(0u8);
            proof {
                assert(out@ =~= old(out)@ + enc_opt_bytes(opt_value_view(*v)));
            }
        },
        Some(sv) => {
            out.push(1u8);
            encode_bytes_into(out, &sv.bytes);
            proof {
                assert(enc_opt_bytes(opt_value_view(*v)) =~= seq![1u8] + enc_bytes(sv.bytes@));
                assert(out@ =~= old(out)@ + enc_opt_bytes(opt_value_view(*v)));
            }
        },
    }
}

/// Decodes a tagged optional byte string from `buf` at `pos`.
pub fn decode_opt_bytes_from(buf: &Vec<u8>, pos: usize) -> (r: Option<(Option<StateValue>, usize)>)
    requires
        pos <= buf@.len(),
    ensures
        match dec_opt_bytes(buf@.skip(pos as int)) {
            Some((v, rest)) => r is Some && opt_value_view((r->0).0) == v && pos < (r->0).1
                <= buf@.len() && buf@.skip((r->0).1 as int) == rest,
            None => r is None,
        },
{
    let ghost s = buf@.skip(pos as int);
    if pos == buf.len() {
        return None;
    }
    let tag = buf[pos];
    proof {
        assert(s[0] == tag);
        assert(s.drop_first() =~= buf@.skip(pos as int + 1));
    }
    if tag == 0 {
        Some((None, pos + 1))
    } else if tag == 1 {
        match decode_bytes_from(buf, pos + 1) {
            Some((b, newpos)) => Some((Some(StateValue::new(b)), newpos)),
            None => None,
        }
    } else {
        None
    }
}

/// Encodes a response payload: the (key, optional value) pairs in request
/// order.
#[verifier::loop_isolation(false)]
pub fn encode_response(pairs: &Vec<(StateKey, Option<StateValue>)>) -> (r: Vec<u8>)
    requires
        pairs@.len() <= MAX_LEN,
        pair_list_fits(pairs_view(pairs@)),
    ensures
        r@ == spec_encode_response(pairs_view(pairs@)),
{
    let ghost pv = pairs_view(pairs@);
    let mut out: Vec<u8> = Vec::new();
    encode_uleb_into(&mut out, pairs.len() as u64);
    let n = pairs.len();
    let mut i: usize = 0;
    proof {
        assert(pv.take(0) =~= Seq::<(Seq<u8>, Option<Seq<u8>>)>::empty());
        assert(out@ =~= enc_uleb(pv.len()) + enc_pair_list(pv.take(0)));
    }
    while i < n
        invariant
            i <= n,
            out@ == enc_uleb(pv.len()) + enc_pair_list(pv.take(i as int)),
        decreases n - i,
    {
        proof {
            assert(pv[i as int] == (pairs@[i as int].0@, opt_value_view(pairs@[i as int].1)));
            assert(pv[i as int].0.len() <= MAX_LEN as nat);
            assert(pv[i as int].1 is Some ==> (pv[i as int].1->0).len() <= MAX_LEN as nat);
        }
        encode_bytes_into(&mut out, &pairs[i].0.bytes);
        encode_opt_bytes_into(&mut out, &pairs[i].1);
        proof {
            assert(pv.take(i as int + 1) =~= pv.take(i as int).push(pv[i as int]));
            lemma_enc_pair_list_push(pv.take(i as int), pv[i as int]);
            assert(out@ =~= enc_uleb(pv.len()) + enc_pair_list(pv.take(i as int + 1)));
        }
        i = i + 1;
    }
    proof {
        assert(pv.take(n as int) =~= pv);
    }
    out
}

/// Decodes a response payload.  Succeeds exactly on the streams the format
/// accepts, and then yields the pairs the stream encodes.
#[verifier::loop_isolation(false)]
pub fn decode_response(buf: &Vec<u8>) -> (r: Option<RemoteKVResponse>)
    ensures
        match spec_decode_response(buf@) {
            Some(ps) => r is Some && pairs_view((r->0).pairs@) == ps,
            None => r is None,
        },
{
    proof {
        assert(buf@.skip(0) =~= buf@);
    }
    let (count, after_len) = match decode_len_from(buf, 0) {
        Some(p) => p,
        None => {
            return None;
        },
    };
    let mut pos = after_len;
    let ghost list_start = buf@.skip(pos as int);
    let mut ps: Vec<(StateKey, Option<StateValue>)> = Vec::new();
    let mut i: u64 = 0;
    while i < count
        invariant
            i <= count,
            pos <= buf@.len(),
            pairs_view(ps@).len() == i,
            match dec_pair_list(buf@.skip(pos as int), (count - i) as nat) {
                Some((tail, rest)) => dec_pair_list(list_start, count as nat) == Some((pairs_view(
                    ps@,
                ) + tail, rest)),
                None => dec_pair_list(list_start, count as nat) is None,
            },
        decreases count - i,
    {
        let (key, after_key) = match decode_bytes_from(buf, pos) {
            Some(p) => p,
            None => {
                return None;
            },
        };
        match decode_opt_bytes_from(buf, after_key) {
            Some((v, newpos)) => {
                proof {
                    let prev = buf@.skip(pos as int);
                    assert(dec_bytes(prev) == Some((key@, buf@.skip(after_key as int))));
                }
                ps.push((StateKey::new(key), v));
                pos = newpos;
                proof {
                    assert(pairs_view(ps@) =~= pairs_view(ps@.drop_last()).push(
                        (ps@.last().0@, opt_value_view(ps@.last().1)),
                    ));
                    let tailopt = dec_pair_list(buf@.skip(pos as int), (count - i - 1) as nat);
                    if tailopt is Some {
                        let (tail, rest) = tailopt->0;
                        assert(pairs_view(ps@) + tail =~= pairs_view(ps@.drop_last()) + (seq![
                            (ps@.last().0@, opt_value_view(ps@.last().1)),
                        ] + tail));
                    }
                }
                i = i + 1;
            },
            None => {
                return None;
            },
        }
    }
    proof {
        assert(dec_pair_list(buf@.skip(pos as int), 0) == Some(
            (Seq::<(Seq<u8>, Option<Seq<u8>>)>::empty(), buf@.skip(pos as int)),
        ));
        assert(pairs_view(ps@) + Seq::<(Seq<u8>, Option<Seq<u8>>)>::empty() =~= pairs_view(ps@));
    }
    if pos != buf.len() {
        proof {
            assert(buf@.skip(pos as int).len() != 0);
        }
        return None;
    }
    proof {
        assert(buf@.skip(pos as int).len() == 0);
    }
    Some(RemoteKVResponse { pairs: ps })
}

} // verus!
