use vstd::prelude::*;

use crate::bytes_le::{
    append_bytes, copy_range, le_bytes, le_value, lemma_i64_bits, lemma_le_canonical,
    lemma_le_round_trip, push_u64_le, read_u64_le,
};

verus! {

/// Why an entry could not be turned into bytes or back.
#[derive(Debug, Clone, Copy, PartialEq, Eq)]
pub enum EntryError {
    /// The key, the value or the envelope could not be serialized.
    Encoding,
    /// The bytes are not a well-formed encoding: malformed, truncated or of
    /// another type.
    Decoding,
}

/// The outer layer of an encoded entry: the encoded key, the encoded value
/// (opaque at this level) and the expiry instant.
#[derive(Debug, Clone, PartialEq, Eq)]
pub struct Envelope {
    pub key: Vec<u8>,
    pub value_data: Vec<u8>,
    pub expire_at_ms: i64,
}

/// The bytes of an envelope: the key's length and bytes, the value data's
/// length and bytes, then the expiry instant, each number in eight bytes,
/// least significant first.
pub open spec fn envelope_bytes(key: Seq<u8>, value_data: Seq<u8>, expire_at_ms: i64) -> Seq<u8> {
    le_bytes(key.len() as u64) + key + le_bytes(value_data.len() as u64) + value_data + le_bytes(
        expire_at_ms as u64,
    )
}

/// Where each field of an envelope stands in its bytes.
pub proof fn lemma_envelope_parts(key: Seq<u8>, value_data: Seq<u8>, expire_at_ms: i64)
    ensures
        ({
            let s = envelope_bytes(key, value_data, expire_at_ms);
            let k = key.len() as int;
            let d = value_data.len() as int;
            &&& s.len() == 24 + k + d
            &&& s.subrange(0, 8) == le_bytes(k as u64)
            &&& s.subrange(8, 8 + k) == key
            &&& s.subrange(8 + k, 16 + k) == le_bytes(d as u64)
            &&& s.subrange(16 + k, 16 + k + d) == value_data
            &&& s.subrange(16 + k + d, 24 + k + d) == le_bytes(expire_at_ms as u64)
        }),
{
    let s = envelope_bytes(key, value_data, expire_at_ms);
    let k = key.len() as int;
    let d = value_data.len() as int;
    lemma_le_round_trip(k as u64);
    lemma_le_round_trip(d as u64);
    lemma_le_round_trip(expire_at_ms as u64);
    assert(s.subrange(0, 8) =~= le_bytes(k as u64));
    assert(s.subrange(8, 8 + k) =~= key);
    assert(s.subrange(8 + k, 16 + k) =~= le_bytes(d as u64));
    assert(s.subrange(16 + k, 16 + k + d) =~= value_data);
    assert(s.subrange(16 + k + d, 24 + k + d) =~= le_bytes(expire_at_ms as u64));
}

/// Two envelopes with the same bytes hold the same fields.
pub proof fn lemma_envelope_injective(
    k1: Seq<u8>,
    d1: Seq<u8>,
    t1: i64,
    k2: Seq<u8>,
    d2: Seq<u8>,
    t2: i64,
)
    requires
        envelope_bytes(k1, d1, t1) == envelope_bytes(k2, d2, t2),
        envelope_bytes(k1, d1, t1).len() <= usize::MAX,
    ensures
        k1 == k2,
        d1 == d2,
        t1 == t2,
{
    lemma_envelope_parts(k1, d1, t1);
    lemma_envelope_parts(k2, d2, t2);
    lemma_le_round_trip(k1.len() as u64);
    lemma_le_round_trip(k2.len() as u64);
    assert(k1.len() == k2.len());
    lemma_le_round_trip(d1.len() as u64);
    lemma_le_round_trip(d2.len() as u64);
    assert(d1.len() == d2.len());
    lemma_le_round_trip(t1 as u64);
    lemma_le_round_trip(t2 as u64);
    lemma_i64_bits(t1, 0);
    lemma_i64_bits(t2, 0);
}

/// Serializes the outer layer.
pub fn encode_envelope(key: &[u8], value_data: &[u8], expire_at_ms: i64) -> (r: Vec<u8>)
    ensures
        r@ == envelope_bytes(key@, value_data@, expire_at_ms),
{
    let mut out: Vec<u8> = Vec::new();
    push_u64_le(&mut out, key.len() as u64);
    append_bytes(&mut out, key);
    push_u64_le(&mut out, value_data.len() as u64);
    append_bytes(&mut out, value_data);
    push_u64_le(&mut out, expire_at_ms as u64);
    assert(out@ =~= envelope_bytes(key@, value_data@, expire_at_ms));
    out
}

/// Parses the outer layer. It succeeds exactly on the bytes of some envelope
/// and then returns that envelope's fields.
pub fn decode_envelope(data: &[u8]) -> (r: Result<Envelope, EntryError>)
    ensures
        match r {
            Ok(env) => envelope_bytes(env.key@, env.value_data@, env.expire_at_ms) == data@,
            Err(e) => e is Decoding && forall|k: Seq<u8>, d: Seq<u8>, t: i64|
                #[trigger] envelope_bytes(k, d, t) != data@,
        },
{
    let n = data.len();
    if n < 8 {
        proof {
            assert forall|k: Seq<u8>, d: Seq<u8>, t: i64| #[trigger]
                envelope_bytes(k, d, t) != data@ by {
                lemma_envelope_parts(k, d, t);
            }
        }
        return Err(EntryError::Decoding);
    }
    let kl = read_u64_le(data, 0);
    if ((n - 8) as u64) < kl || n - 8 - (kl as usize) < 8 {
        proof {
            assert forall|k: Seq<u8>, d: Seq<u8>, t: i64| #[trigger]
                envelope_bytes(k, d, t) != data@ by {
                lemma_envelope_parts(k, d, t);
                if envelope_bytes(k, d, t) == data@ {
                    lemma_le_round_trip(k.len() as u64);
                }
            }
        }
        return Err(EntryError::Decoding);
    }
    let k = kl as usize;
    let dl = read_u64_le(data, 8 + k);
    let rest = n - 16 - k;
    if rest < 8 || ((rest - 8) as u64) != dl {
        proof {
            assert forall|kk: Seq<u8>, d: Seq<u8>, t: i64| #[trigger]
                envelope_bytes(kk, d, t) != data@ by {
                lemma_envelope_parts(kk, d, t);
                if envelope_bytes(kk, d, t) == data@ {
                    lemma_le_round_trip(kk.len() as u64);
                    lemma_le_round_trip(d.len() as u64);
                }
            }
        }
        return Err(EntryError::Decoding);
    }
    let d = dl as usize;
    let tv = read_u64_le(data, 16 + k + d);
    let key = copy_range(data, 8, 8 + k);
    let value_data = copy_range(data, 16 + k, 16 + k + d);
    let expire_at_ms = tv as i64;
    proof {
        lemma_le_canonical(data@.subrange(0, 8));
        lemma_le_canonical(data@.subrange(8 + k, 16 + k));
        lemma_le_canonical(data@.subrange(16 + k + d, 24 + k + d));
        lemma_i64_bits(0, tv);
        assert(data@ =~= envelope_bytes(key@, value_data@, expire_at_ms));
    }
    Ok(Envelope { key, value_data, expire_at_ms })
}

} // verus!
