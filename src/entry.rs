use vstd::prelude::*;

use crate::bytes_le::{append_bytes, copy_range};
use crate::envelope::{
    decode_envelope, encode_envelope, envelope_bytes, lemma_envelope_injective,
    lemma_envelope_parts, EntryError,
};

verus! {

/// A keyed record with an optional value and an absolute expiry instant in
/// milliseconds since the Unix epoch (UTC). An absent value is a tombstone.
#[derive(Debug, Clone, PartialEq, Eq)]
pub struct Entry<K, V> {
    pub key: K,
    pub value: Option<V>,
    pub expire_at_ms: i64,
}

/// The view of an optional value.
pub open spec fn option_view<T: View>(v: Option<T>) -> Option<T::V> {
    match v {
        Some(x) => Some(x@),
        None => None,
    }
}

impl<K: View, V: View> View for Entry<K, V> {
    type V = Entry<K::V, V::V>;

    open spec fn view(&self) -> Entry<K::V, V::V> {
        Entry { key: self.key@, value: option_view(self.value), expire_at_ms: self.expire_at_ms }
    }
}

/// Whether an entry expiring at `expire_at_ms` counts as expired at `now_ms`:
/// from its expiry instant on, inclusive.
pub open spec fn outdated_at(expire_at_ms: i64, now_ms: i64) -> bool {
    expire_at_ms <= now_ms
}

/// An entry is live at every instant before its expiry and expired at its
/// expiry instant and at every instant after it.
pub proof fn lemma_expiry_monotone(expire_at_ms: i64, now_ms: i64, later_ms: i64)
    ensures
        now_ms < expire_at_ms ==> !outdated_at(expire_at_ms, now_ms),
        expire_at_ms <= now_ms ==> outdated_at(expire_at_ms, now_ms),
        outdated_at(expire_at_ms, now_ms) && now_ms <= later_ms ==> outdated_at(
            expire_at_ms,
            later_ms,
        ),
{
}

/// The inner layer: one byte that tells an absent value from a present one,
/// followed by the value's bytes when there is one.
pub open spec fn payload_bytes(value: Option<Seq<u8>>) -> Seq<u8> {
    match value {
        None => seq![0u8],
        Some(b) => seq![1u8] + b,
    }
}

/// The bytes of an entry whose key and value are already encoded: the
/// envelope around the key, the value's payload and the expiry instant.
pub open spec fn entry_bytes(e: Entry<Seq<u8>, Seq<u8>>) -> Seq<u8> {
    envelope_bytes(e.key, payload_bytes(e.value), e.expire_at_ms)
}

/// The entry that `s` is the encoding of, if there is one.
pub open spec fn decoded(s: Seq<u8>) -> Option<Entry<Seq<u8>, Seq<u8>>> {
    if exists|e: Entry<Seq<u8>, Seq<u8>>| #[trigger] entry_bytes(e) == s {
        Some(choose|e: Entry<Seq<u8>, Seq<u8>>| #[trigger] entry_bytes(e) == s)
    } else {
        None
    }
}

/// Two values with the same payload are equal.
pub proof fn lemma_payload_injective(a: Option<Seq<u8>>, b: Option<Seq<u8>>)
    requires
        payload_bytes(a) == payload_bytes(b),
    ensures
        a == b,
{
    assert(payload_bytes(a)[0] == payload_bytes(b)[0]);
    match (a, b) {
        (Some(x), Some(y)) => {
            assert(x =~= payload_bytes(a).subrange(1, payload_bytes(a).len() as int));
            assert(y =~= payload_bytes(b).subrange(1, payload_bytes(b).len() as int));
        },
        (Some(x), None) => {
            assert((seq![1u8] + x)[0] == 1u8);
        },
        (None, Some(y)) => {
            assert((seq![1u8] + y)[0] == 1u8);
        },
        (None, None) => {},
    }
}

/// Two entries with the same encoding are equal.
pub proof fn lemma_entry_injective(a: Entry<Seq<u8>, Seq<u8>>, b: Entry<Seq<u8>, Seq<u8>>)
    requires
        entry_bytes(a) == entry_bytes(b),
        entry_bytes(a).len() <= usize::MAX,
    ensures
        a == b,
{
    lemma_envelope_injective(
        a.key,
        payload_bytes(a.value),
        a.expire_at_ms,
        b.key,
        payload_bytes(b.value),
        b.expire_at_ms,
    );
    lemma_payload_injective(a.value, b.value);
}

/// Round trip: decoding the encoding of an entry gives back that entry, its
/// key, its value or the absence of one, and its expiry.
pub proof fn lemma_round_trip(e: Entry<Seq<u8>, Seq<u8>>)
    requires
        entry_bytes(e).len() <= usize::MAX,
    ensures
        decoded(entry_bytes(e)) == Some(e),
{
    let s = entry_bytes(e);
    assert(entry_bytes(e) == s);
    let c = choose|c: Entry<Seq<u8>, Seq<u8>>| #[trigger] entry_bytes(c) == s;
    lemma_entry_injective(c, e);
}

/// A tombstone stays a tombstone: an entry without a value decodes to an entry
/// without a value, never to a default one.
pub proof fn lemma_tombstone_kept(e: Entry<Seq<u8>, Seq<u8>>)
    requires
        e.value is None,
        entry_bytes(e).len() <= usize::MAX,
    ensures
        decoded(entry_bytes(e)) matches Some(d) && d.value is None,
{
    lemma_round_trip(e);
}

/// Dropping the last byte of an encoded entry leaves bytes that are the
/// encoding of no entry.
pub proof fn lemma_truncation_rejected(e: Entry<Seq<u8>, Seq<u8>>)
    requires
        entry_bytes(e).len() <= usize::MAX,
    ensures
        decoded(entry_bytes(e).drop_last()) is None,
{
    let s = entry_bytes(e);
    let p = payload_bytes(e.value);
    lemma_envelope_parts(e.key, p, e.expire_at_ms);
    let t = s.drop_last();
    if exists|c: Entry<Seq<u8>, Seq<u8>>| #[trigger] entry_bytes(c) == t {
        let c = choose|c: Entry<Seq<u8>, Seq<u8>>| #[trigger] entry_bytes(c) == t;
        let q = payload_bytes(c.value);
        lemma_envelope_parts(c.key, q, c.expire_at_ms);
        let k = e.key.len() as int;
        assert(t.subrange(0, 8) == s.subrange(0, 8));
        crate::bytes_le::lemma_le_round_trip(k as u64);
        crate::bytes_le::lemma_le_round_trip(c.key.len() as u64);
        assert(c.key.len() == e.key.len());
        assert(t.subrange(8 + k, 16 + k) == s.subrange(8 + k, 16 + k));
        crate::bytes_le::lemma_le_round_trip(p.len() as u64);
        crate::bytes_le::lemma_le_round_trip(q.len() as u64);
        assert(p.len() == q.len());
    }
}

/// Encodes an optional value, already turned into bytes, as a payload.
pub fn encode_payload(value: &Option<Vec<u8>>) -> (r: Vec<u8>)
    ensures
        r@ == payload_bytes(option_view(*value)),
{
    let mut out: Vec<u8> = Vec::new();
    match value {
        None => {
            out.push(0u8);
            assert(out@ =~= seq![0u8]);
        },
        Some(b) => {
            out.push(1u8);
            append_bytes(&mut out, b.as_slice());
            assert(out@ =~= seq![1u8] + b@);
        },
    }
    out
}

/// Decodes a payload. It succeeds exactly on the payload of some optional
/// value and then returns that value.
pub fn decode_payload(data: &[u8]) -> (r: Result<Option<Vec<u8>>, EntryError>)
    ensures
        match r {
            Ok(v) => payload_bytes(option_view(v)) == data@,
            Err(e) => e is Decoding && forall|v: Option<Seq<u8>>| #[trigger]
                payload_bytes(v) != data@,
        },
{
    if data.len() == 1 && data[0] == 0u8 {
        assert(data@ =~= seq![0u8]);
        Ok(None)
    } else if data.len() >= 1 && data[0] == 1u8 {
        let b = copy_range(data, 1, data.len());
        assert(data@ =~= seq![1u8] + b@);
        Ok(Some(b))
    } else {
        assert forall|v: Option<Seq<u8>>| #[trigger] payload_bytes(v) != data@ by {
            if payload_bytes(v) == data@ {
                assert(payload_bytes(v)[0] == data@[0]);
                if v is None {
                    assert(data@.len() == 1);
                }
            }
        }
        Err(EntryError::Decoding)
    }
}

impl Entry<Vec<u8>, Vec<u8>> {
    /// Encodes an entry whose key and value are already bytes: first the value
    /// into its payload, then the envelope around key, payload and expiry.
    pub fn encode(&self) -> (r: Vec<u8>)
        ensures
            r@ == entry_bytes(self@),
    {
        let value_data = encode_payload(&self.value);
        encode_envelope(self.key.as_slice(), value_data.as_slice(), self.expire_at_ms)
    }

    /// Decodes an entry: first the envelope, then the payload inside it. It
    /// succeeds exactly on the encoding of some entry, and then returns it.
    pub fn decode(data: &[u8]) -> (r: Result<Self, EntryError>)
        ensures
            r is Ok <==> decoded(data@) is Some,
            r matches Ok(e) ==> decoded(data@) == Some(e@),
            r matches Err(err) ==> err is Decoding,
    {
        proof {
            assert(data@.len() == data.len());
        }
        match decode_envelope(data) {
            Err(err) => {
                proof {
                    assert forall|e: Entry<Seq<u8>, Seq<u8>>| #[trigger]
                        entry_bytes(e) != data@ by {
                        assert(entry_bytes(e) == envelope_bytes(
                            e.key,
                            payload_bytes(e.value),
                            e.expire_at_ms,
                        ));
                    }
                }
                Err(err)
            },
            Ok(env) => {
                match decode_payload(env.value_data.as_slice()) {
                    Err(err) => {
                        proof {
                            assert forall|e: Entry<Seq<u8>, Seq<u8>>| #[trigger]
                                entry_bytes(e) != data@ by {
                                if entry_bytes(e) == data@ {
                                    lemma_envelope_injective(
                                        e.key,
                                        payload_bytes(e.value),
                                        e.expire_at_ms,
                                        env.key@,
                                        env.value_data@,
                                        env.expire_at_ms,
                                    );
                                    assert(payload_bytes(e.value) != env.value_data@);
                                }
                            }
                        }
                        Err(err)
                    },
                    Ok(value) => {
                        let entry = Entry { key: env.key, value, expire_at_ms: env.expire_at_ms };
                        proof {
                            assert(entry_bytes(entry@) == data@);
                            lemma_round_trip(entry@);
                        }
                        Ok(entry)
                    },
                }
            },
        }
    }
}

/// What a containing cache asks of an entry.
pub trait EntryTrait<K: Clone> {
    /// The key the entry holds.
    spec fn key_of(&self) -> K;

    /// The entry's expiry instant, in milliseconds since the Unix epoch.
    spec fn expire_of(&self) -> i64;

    /// Whether the entry has expired by the current UTC time: the answer of
    /// `outdated_at` for the clock's reading (see `now_millis`), whatever it
    /// was, so the earliest expiry has always passed.
    fn is_outdated(&self) -> (r: bool)
        ensures
            exists|now_ms: i64| r == outdated_at(self.expire_of(), now_ms),
            self.expire_of() == i64::MIN ==> r,
    ;

    /// A copy of the key; the entry keeps its own.
    fn get_key(&self) -> (r: K)
        ensures
            cloned(self.key_of(), r),
    ;
}

/// The number of nanoseconds that a reading of the system clock stands after
/// the Unix epoch: `Ok` holds whole seconds and nanoseconds after it, `Err`
/// the same before it.
pub open spec fn signed_nanos(reading: Result<(u64, u32), (u64, u32)>) -> int {
    match reading {
        Ok((s, n)) => s * 1_000_000_000 + n,
        Err((s, n)) => -(s * 1_000_000_000 + n),
    }
}

/// Relies on std's `SystemTime::now` and `SystemTime::duration_since` with
/// `UNIX_EPOCH`: `Ok` with the time since the epoch, or an error whose
/// `duration` is how far before the epoch the clock stands. Neither panics, and
/// the subsecond part of a `Duration` is below one billion nanoseconds.
#[verifier::external_body]
fn system_clock() -> (r: Result<(u64, u32), (u64, u32)>)
    ensures
        match r {
            Ok((_, n)) => n < 1_000_000_000,
            Err((_, n)) => n < 1_000_000_000,
        },
{
    match std::time::SystemTime::now().duration_since(std::time::UNIX_EPOCH) {
        Ok(d) => Ok((d.as_secs(), d.subsec_nanos())),
        Err(e) => Err((e.duration().as_secs(), e.duration().subsec_nanos())),
    }
}

/// Relies on chrono's `DateTime::from_timestamp`, which returns `None` for an
/// instant outside chrono's range instead of panicking, and
/// `DateTime::timestamp_millis`: the whole milliseconds since the epoch.
#[verifier::external_body]
fn utc_millis(secs: i64, nanos: u32) -> (r: Option<i64>)
    requires
        nanos < 1_000_000_000,
    ensures
        r matches Some(ms) ==> ms == secs * 1000 + nanos / 1_000_000,
{
    chrono::DateTime::from_timestamp(secs, nanos).map(|d| d.timestamp_millis())
}

/// A clock reading as a signed timestamp: whole seconds, rounded down, and the
/// nanoseconds past them. `None` when the seconds do not fit in an `i64`.
pub fn timestamp_parts(reading: Result<(u64, u32), (u64, u32)>) -> (r: Option<(i64, u32)>)
    requires
        match reading {
            Ok((_, n)) => n < 1_000_000_000,
            Err((_, n)) => n < 1_000_000_000,
        },
    ensures
        match reading {
            Ok((s, _)) => r is None <==> s > i64::MAX,
            Err((s, _)) => r is None <==> s > i64::MAX,
        },
        r matches Some((t, m)) ==> m < 1_000_000_000 && t * 1_000_000_000 + m == signed_nanos(
            reading,
        ),
{
    match reading {
        Ok((s, n)) => {
            if s > i64::MAX as u64 {
                None
            } else {
                Some((s as i64, n))
            }
        },
        Err((s, n)) => {
            if s > i64::MAX as u64 {
                None
            } else if n == 0 {
                Some((-(s as i64), 0))
            } else {
                Some((-(s as i64) - 1, 1_000_000_000 - n))
            }
        },
    }
}

/// The clock's reading in milliseconds, saturated: a reading after the epoch
/// that chrono cannot represent counts as the latest instant, one before it as
/// the earliest.
pub fn saturated_millis(after_epoch: bool, millis: Option<i64>) -> (r: i64)
    ensures
        r == match millis {
            Some(ms) => ms,
            None => if after_epoch {
                i64::MAX
            } else {
                i64::MIN
            },
        },
{
    match millis {
        Some(ms) => ms,
        None => if after_epoch {
            i64::MAX
        } else {
            i64::MIN
        },
    }
}

/// The current UTC time in milliseconds since the Unix epoch, saturated at the
/// ends of the `i64` range; reading the clock never fails.
pub fn now_millis() -> i64 {
    let reading = system_clock();
    let millis = match timestamp_parts(reading) {
        Some((secs, nanos)) => utc_millis(secs, nanos),
        None => None,
    };
    saturated_millis(reading.is_ok(), millis)
}

impl<K: Clone, V> EntryTrait<K> for Entry<K, V> {
    open spec fn key_of(&self) -> K {
        self.key
    }

    open spec fn expire_of(&self) -> i64 {
        self.expire_at_ms
    }

    fn is_outdated(&self) -> (r: bool) {
        let now_ms = now_millis();
        let r = self.is_outdated_at(now_ms);
        assert(r == outdated_at(self.expire_of(), now_ms));
        r
    }

    fn get_key(&self) -> (r: K) {
        self.key.clone()
    }
}

impl<K, V> Entry<K, V> {
    /// Expiry check against a caller-supplied clock reading.
    pub fn is_outdated_at(&self, now_ms: i64) -> (r: bool)
        ensures
            r == outdated_at(self.expire_at_ms, now_ms),
    {
        self.expire_at_ms <= now_ms
    }
}

} // verus!
