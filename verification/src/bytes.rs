//! Small helpers on byte strings, shared by the codecs.

use vstd::prelude::*;

verus! {

/// Appends a copy of `tail` to `out`.
pub fn append(out: &mut Vec<u8>, tail: &[u8])
    ensures
        final(out)@ == old(out)@ + tail@,
{
    out.extend_from_slice(tail);
    assert(out@ =~= old(out)@ + tail@);
}

/// An owned copy of `data`.
pub fn to_vec(data: &[u8]) -> (out: Vec<u8>)
    ensures
        out@ == data@,
{
    let mut out: Vec<u8> = Vec::with_capacity(data.len());
    append(&mut out, data);
    assert(out@ =~= data@);
    out
}

/// An owned copy of `data[from..to]`.
pub fn slice_to_vec(data: &[u8], from: usize, to: usize) -> (out: Vec<u8>)
    requires
        from <= to <= data@.len(),
    ensures
        out@ == data@.subrange(from as int, to as int),
{
    to_vec(&data[from..to])
}

/// Whether two byte strings are equal.
pub fn equal(a: &[u8], b: &[u8]) -> (r: bool)
    ensures
        r == (a@ == b@),
{
    if a.len() != b.len() {
        return false;
    }
    let mut i: usize = 0;
    while i < a.len()
        invariant
            i <= a@.len(),
            a@.len() == b@.len(),
            forall|j: int| 0 <= j < i ==> a@[j] == b@[j],
        decreases a@.len() - i,
    {
        if a[i] != b[i] {
            return false;
        }
        i += 1;
    }
    assert(a@ =~= b@);
    true
}

/// Big-endian value of a byte string.
pub open spec fn be_value(s: Seq<u8>) -> nat
    decreases s.len(),
{
    if s.len() == 0 {
        0
    } else {
        be_value(s.drop_last()) * 256 + s.last() as nat
    }
}

/// Big-endian encoding of `v` in `n` bytes (the low `8 * n` bits of `v`).
pub open spec fn be_bytes(v: nat, n: nat) -> Seq<u8>
    decreases n,
{
    if n == 0 {
        Seq::empty()
    } else {
        be_bytes(v / 256, (n - 1) as nat).push((v % 256) as u8)
    }
}

/// `256` to the power `n`: the number of values that `n` bytes can hold.
pub open spec fn byte_span(n: nat) -> nat
    decreases n,
{
    if n == 0 {
        1
    } else {
        256 * byte_span((n - 1) as nat)
    }
}

/// A big-endian encoding in `n` bytes has `n` bytes.
pub proof fn be_len(v: nat, n: nat)
    ensures
        be_bytes(v, n).len() == n,
    decreases n,
{
    if n > 0 {
        be_len(v / 256, (n - 1) as nat);
    }
}

/// Encoding a value that fits in `n` bytes and decoding it again is the identity.
pub proof fn be_round_trip(v: nat, n: nat)
    requires
        v < byte_span(n),
    ensures
        be_bytes(v, n).len() == n,
        be_value(be_bytes(v, n)) == v,
    decreases n,
{
    if n > 0 {
        assert(v / 256 < byte_span((n - 1) as nat));
        be_round_trip(v / 256, (n - 1) as nat);
        assert(be_bytes(v, n).drop_last() =~= be_bytes(v / 256, (n - 1) as nat));
    }
}

/// The big-endian value of `n` bytes is below `256` to the power `n`.
pub proof fn be_value_bound(s: Seq<u8>)
    ensures
        be_value(s) < byte_span(s.len()),
    decreases s.len(),
{
    if s.len() > 0 {
        be_value_bound(s.drop_last());
    }
}

/// Appends the two-byte big-endian encoding of `v`.
pub fn append_be16(out: &mut Vec<u8>, v: u16)
    ensures
        final(out)@ == old(out)@ + be_bytes(v as nat, 2),
{
    out.push((v / 256) as u8);
    out.push((v % 256) as u8);
    proof {
        reveal_with_fuel(be_bytes, 3);
        assert(out@ =~= old(out)@ + be_bytes(v as nat, 2));
    }
}

/// Appends the four-byte big-endian encoding of `v`.
pub fn append_be32(out: &mut Vec<u8>, v: u32)
    ensures
        final(out)@ == old(out)@ + be_bytes(v as nat, 4),
{
    out.push((v / 16777216) as u8);
    out.push((v / 65536 % 256) as u8);
    out.push((v / 256 % 256) as u8);
    out.push((v % 256) as u8);
    proof {
        reveal_with_fuel(be_bytes, 5);
        assert(v / 256 / 256 == v / 65536);
        assert(v / 65536 / 256 == v / 16777216);
        assert(out@ =~= old(out)@ + be_bytes(v as nat, 4));
    }
}

/// Appends the eight-byte big-endian encoding of `v`.
pub fn append_be64(out: &mut Vec<u8>, v: u64)
    ensures
        final(out)@ == old(out)@ + be_bytes(v as nat, 8),
{
    let high: u32 = (v / 4294967296) as u32;
    let low: u32 = (v % 4294967296) as u32;
    append_be32(out, high);
    append_be32(out, low);
    proof {
        be_split(v as nat, 4, 4);
        reveal_with_fuel(byte_span, 5);
        assert(out@ =~= old(out)@ + be_bytes(v as nat, 8));
    }
}

/// Big-endian bytes split into those of the high part and those of the low part.
proof fn be_split(v: nat, n: nat, m: nat)
    ensures
        byte_span(m) > 0,
        be_bytes(v, n + m) == be_bytes(v / byte_span(m), n) + be_bytes(v % byte_span(m), m),
    decreases m,
{
    if m == 0 {
        assert(v / 1 == v);
        assert(be_bytes(v, n) + be_bytes(v % 1, 0) =~= be_bytes(v, n));
    } else {
        let k = (m - 1) as nat;
        be_split(v / 256, n, k);
        let s = byte_span(k) as int;
        let x = v as int;
        vstd::arithmetic::div_mod::lemma_div_denominator(x, 256, s);
        vstd::arithmetic::div_mod::lemma_mod_breakdown(x, 256, s);
        assert(x % (256 * s) == 256 * ((x / 256) % s) + x % 256);
        let w = v % byte_span(m);
        assert(w % 256 == v % 256);
        assert(w / 256 == (v / 256) % byte_span(k));
        assert(be_bytes(v, n + m) =~= be_bytes(v / byte_span(m), n) + be_bytes(w, m));
    }
}

/// More bytes have no fewer values.
proof fn byte_span_grows(n: nat, m: nat)
    requires
        n <= m,
    ensures
        1 <= byte_span(n) <= byte_span(m),
    decreases m,
{
    if n < m {
        byte_span_grows(n, (m - 1) as nat);
    } else if n > 0 {
        byte_span_grows((n - 1) as nat, (n - 1) as nat);
    }
}

/// The big-endian value of at most sixteen bytes.
pub fn be_number(data: &[u8]) -> (r: u128)
    requires
        data@.len() <= 16,
    ensures
        r == be_value(data@),
{
    let mut r: u128 = 0;
    let mut i: usize = 0;
    assert(data@.take(0) =~= Seq::<u8>::empty());
    while i < data.len()
        invariant
            i <= data@.len(),
            data@.len() <= 16,
            r == be_value(data@.take(i as int)),
        decreases data@.len() - i,
    {
        proof {
            assert(data@.take(i + 1).drop_last() =~= data@.take(i as int));
            be_value_bound(data@.take(i + 1));
            byte_span_grows((i + 1) as nat, 16);
            reveal_with_fuel(byte_span, 17);
        }
        r = r * 256 + data[i] as u128;
        i += 1;
    }
    assert(data@.take(i as int) =~= data@);
    r
}

/// Little-endian encoding of `v` in `n` bytes.
pub open spec fn le_bytes(v: nat, n: nat) -> Seq<u8>
    decreases n,
{
    if n == 0 {
        Seq::empty()
    } else {
        seq![(v % 256) as u8] + le_bytes(v / 256, (n - 1) as nat)
    }
}

/// Appends the eight-byte little-endian encoding of `v`.
pub fn append_le64(out: &mut Vec<u8>, v: u64)
    ensures
        final(out)@ == old(out)@ + le_bytes(v as nat, 8),
{
    let mut rest: u64 = v;
    let mut i: usize = 0;
    assert(out@ + le_bytes(rest as nat, 8) =~= old(out)@ + le_bytes(v as nat, 8));
    while i < 8
        invariant
            i <= 8,
            out@ + le_bytes(rest as nat, (8 - i) as nat) == old(out)@ + le_bytes(v as nat, 8),
        decreases 8 - i,
    {
        let ghost before = out@;
        let ghost value = rest as nat;
        out.push((rest % 256) as u8);
        rest = rest / 256;
        i += 1;
        proof {
            assert(le_bytes(value, (9 - i) as nat) == seq![(value % 256) as u8] + le_bytes(
                value / 256,
                (8 - i) as nat,
            ));
            assert(out@ + le_bytes(rest as nat, (8 - i) as nat) =~= before + le_bytes(
                value,
                (9 - i) as nat,
            ));
        }
    }
    assert(out@ =~= old(out)@ + le_bytes(v as nat, 8));
}

} // verus!
