use vstd::prelude::*;

verus! {

/// The eight bytes of `n`, least significant first.
pub open spec fn le_bytes(n: u64) -> Seq<u8> {
    seq![
        (n & 0xff) as u8,
        ((n >> 8u64) & 0xff) as u8,
        ((n >> 16u64) & 0xff) as u8,
        ((n >> 24u64) & 0xff) as u8,
        ((n >> 32u64) & 0xff) as u8,
        ((n >> 40u64) & 0xff) as u8,
        ((n >> 48u64) & 0xff) as u8,
        ((n >> 56u64) & 0xff) as u8,
    ]
}

/// The number whose eight bytes, least significant first, start `b`.
pub open spec fn le_value(b: Seq<u8>) -> u64 {
    (b[0] as u64) | ((b[1] as u64) << 8u64) | ((b[2] as u64) << 16u64) | ((b[3] as u64) << 24u64)
        | ((b[4] as u64) << 32u64) | ((b[5] as u64) << 40u64) | ((b[6] as u64) << 48u64) | ((
    b[7] as u64) << 56u64)
}

/// Reading back the bytes of a number gives the number.
pub proof fn lemma_le_round_trip(n: u64)
    ensures
        le_value(le_bytes(n)) == n,
        le_bytes(n).len() == 8,
{
    let b = le_bytes(n);
    assert(((n & 0xff) as u8) as u64 == n & 0xff) by (bit_vector);
    assert((((n >> 8u64) & 0xff) as u8) as u64 == (n >> 8u64) & 0xff) by (bit_vector);
    assert((((n >> 16u64) & 0xff) as u8) as u64 == (n >> 16u64) & 0xff) by (bit_vector);
    assert((((n >> 24u64) & 0xff) as u8) as u64 == (n >> 24u64) & 0xff) by (bit_vector);
    assert((((n >> 32u64) & 0xff) as u8) as u64 == (n >> 32u64) & 0xff) by (bit_vector);
    assert((((n >> 40u64) & 0xff) as u8) as u64 == (n >> 40u64) & 0xff) by (bit_vector);
    assert((((n >> 48u64) & 0xff) as u8) as u64 == (n >> 48u64) & 0xff) by (bit_vector);
    assert((((n >> 56u64) & 0xff) as u8) as u64 == (n >> 56u64) & 0xff) by (bit_vector);
    assert((n & 0xff) | (((n >> 8u64) & 0xff) << 8u64) | (((n >> 16u64) & 0xff) << 16u64) | (((n
        >> 24u64) & 0xff) << 24u64) | (((n >> 32u64) & 0xff) << 32u64) | (((n >> 40u64) & 0xff)
        << 40u64) | (((n >> 48u64) & 0xff) << 48u64) | (((n >> 56u64) & 0xff) << 56u64) == n)
        by (bit_vector);
}

proof fn lemma_bytes_of_value(b0: u8, b1: u8, b2: u8, b3: u8, b4: u8, b5: u8, b6: u8, b7: u8) by (bit_vector)
    ensures
            ((((b0 as u64) | ((b1 as u64) << 8u64) | ((b2 as u64) << 16u64) | ((b3 as u64) << 24u64) | ((b4 as u64) << 32u64) | ((b5 as u64) << 40u64) | ((b6 as u64) << 48u64) | ((b7 as u64) << 56u64)) & 0xff) as u8) == b0,
            (((((b0 as u64) | ((b1 as u64) << 8u64) | ((b2 as u64) << 16u64) | ((b3 as u64) << 24u64) | ((b4 as u64) << 32u64) | ((b5 as u64) << 40u64) | ((b6 as u64) << 48u64) | ((b7 as u64) << 56u64)) >> 8u64) & 0xff) as u8) == b1,
            (((((b0 as u64) | ((b1 as u64) << 8u64) | ((b2 as u64) << 16u64) | ((b3 as u64) << 24u64) | ((b4 as u64) << 32u64) | ((b5 as u64) << 40u64) | ((b6 as u64) << 48u64) | ((b7 as u64) << 56u64)) >> 16u64) & 0xff) as u8) == b2,
            (((((b0 as u64) | ((b1 as u64) << 8u64) | ((b2 as u64) << 16u64) | ((b3 as u64) << 24u64) | ((b4 as u64) << 32u64) | ((b5 as u64) << 40u64) | ((b6 as u64) << 48u64) | ((b7 as u64) << 56u64)) >> 24u64) & 0xff) as u8) == b3,
            (((((b0 as u64) | ((b1 as u64) << 8u64) | ((b2 as u64) << 16u64) | ((b3 as u64) << 24u64) | ((b4 as u64) << 32u64) | ((b5 as u64) << 40u64) | ((b6 as u64) << 48u64) | ((b7 as u64) << 56u64)) >> 32u64) & 0xff) as u8) == b4,
            (((((b0 as u64) | ((b1 as u64) << 8u64) | ((b2 as u64) << 16u64) | ((b3 as u64) << 24u64) | ((b4 as u64) << 32u64) | ((b5 as u64) << 40u64) | ((b6 as u64) << 48u64) | ((b7 as u64) << 56u64)) >> 40u64) & 0xff) as u8) == b5,
            (((((b0 as u64) | ((b1 as u64) << 8u64) | ((b2 as u64) << 16u64) | ((b3 as u64) << 24u64) | ((b4 as u64) << 32u64) | ((b5 as u64) << 40u64) | ((b6 as u64) << 48u64) | ((b7 as u64) << 56u64)) >> 48u64) & 0xff) as u8) == b6,
            (((((b0 as u64) | ((b1 as u64) << 8u64) | ((b2 as u64) << 16u64) | ((b3 as u64) << 24u64) | ((b4 as u64) << 32u64) | ((b5 as u64) << 40u64) | ((b6 as u64) << 48u64) | ((b7 as u64) << 56u64)) >> 56u64) & 0xff) as u8) == b7,
{
}

/// The bytes of the number read from eight bytes are those bytes.
pub proof fn lemma_le_canonical(b: Seq<u8>)
    requires
        b.len() == 8,
    ensures
        le_bytes(le_value(b)) == b,
{
    lemma_bytes_of_value(b[0], b[1], b[2], b[3], b[4], b[5], b[6], b[7]);
    assert(le_bytes(le_value(b)) =~= b);
}

/// Storing a signed number as its unsigned bit pattern loses nothing.
pub proof fn lemma_i64_bits(t: i64, v: u64)
    ensures
        (t as u64) as i64 == t,
        (v as i64) as u64 == v,
{
    assert((t as u64) as i64 == t) by (bit_vector);
    assert((v as i64) as u64 == v) by (bit_vector);
}

/// Appends the eight bytes of `n`, least significant first.
pub fn push_u64_le(out: &mut Vec<u8>, n: u64)
    ensures
        final(out)@ == old(out)@ + le_bytes(n),
{
    out.push((n & 0xff) as u8);
    out.push(((n >> 8u64) & 0xff) as u8);
    out.push(((n >> 16u64) & 0xff) as u8);
    out.push(((n >> 24u64) & 0xff) as u8);
    out.push(((n >> 32u64) & 0xff) as u8);
    out.push(((n >> 40u64) & 0xff) as u8);
    out.push(((n >> 48u64) & 0xff) as u8);
    out.push(((n >> 56u64) & 0xff) as u8);
    assert(final(out)@ =~= old(out)@ + le_bytes(n));
}

/// Reads the number stored in `data[pos..pos + 8]`, least significant byte first.
pub fn read_u64_le(data: &[u8], pos: usize) -> (r: u64)
    requires
        pos + 8 <= data@.len(),
    ensures
        r == le_value(data@.subrange(pos as int, pos + 8)),
{
    let ghost b = data@.subrange(pos as int, pos + 8);
    let r = (data[pos] as u64) | ((data[pos + 1] as u64) << 8u64) | ((data[pos + 2] as u64)
        << 16u64) | ((data[pos + 3] as u64) << 24u64) | ((data[pos + 4] as u64) << 32u64) | ((
    data[pos + 5] as u64) << 40u64) | ((data[pos + 6] as u64) << 48u64) | ((data[pos + 7] as u64)
        << 56u64);
    assert(b[0] == data@[pos as int] && b[7] == data@[pos + 7]);
    r
}

/// Appends the bytes of `src` to `out`.
pub fn append_bytes(out: &mut Vec<u8>, src: &[u8])
    ensures
        final(out)@ == old(out)@ + src@,
{
    let ghost start = out@;
    let mut i: usize = 0;
    while i < src.len()
        invariant
            i <= src@.len(),
            out@ == start + src@.subrange(0, i as int),
        decreases src@.len() - i,
    {
        out.push(src[i]);
        i = i + 1;
        assert(src@.subrange(0, i as int) =~= src@.subrange(0, i - 1) + seq![src@[i - 1]]);
    }
    assert(src@.subrange(0, i as int) =~= src@);
}

/// A copy of `data[from..to]`.
pub fn copy_range(data: &[u8], from: usize, to: usize) -> (r: Vec<u8>)
    requires
        from <= to <= data@.len(),
    ensures
        r@ == data@.subrange(from as int, to as int),
{
    let mut r: Vec<u8> = Vec::new();
    let mut i: usize = from;
    while i < to
        invariant
            from <= i <= to <= data@.len(),
            r@ == data@.subrange(from as int, i as int),
        decreases to - i,
    {
        r.push(data[i]);
        i = i + 1;
        assert(data@.subrange(from as int, i as int) =~= data@.subrange(from as int, i - 1) + seq![
            data@[i - 1]]);
    }
    r
}

} // verus!
