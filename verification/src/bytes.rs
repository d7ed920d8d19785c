//! Big-endian byte encodings, as written on the wire by the exporters.
use byteorder::{BigEndian, ByteOrder};
use vstd::prelude::*;

verus! {

/// `256` raised to `n`.
pub open spec fn pow256(n: nat) -> nat
    decreases n,
{
    if n == 0 {
        1
    } else {
        256 * pow256((n - 1) as nat)
    }
}

/// The `len` low-order bytes of `v`, most significant first.
pub open spec fn be_bytes(v: nat, len: nat) -> Seq<u8>
    decreases len,
{
    if len == 0 {
        Seq::empty()
    } else {
        be_bytes(v / 256, (len - 1) as nat).push((v % 256) as u8)
    }
}

/// The number that a big-endian byte string denotes.
pub open spec fn be_value(s: Seq<u8>) -> nat
    decreases s.len(),
{
    if s.len() == 0 {
        0
    } else {
        be_value(s.drop_last()) * 256 + s.last() as nat
    }
}

pub proof fn lemma_pow256_positive(n: nat)
    ensures
        pow256(n) > 0,
    decreases n,
{
    if n > 0 {
        lemma_pow256_positive((n - 1) as nat);
    }
}

pub proof fn lemma_be_bytes_len(v: nat, len: nat)
    ensures
        be_bytes(v, len).len() == len,
    decreases len,
{
    if len > 0 {
        lemma_be_bytes_len(v / 256, (len - 1) as nat);
    }
}

/// Reading back `len` big-endian bytes of `v` gives `v` modulo `256^len`.
pub proof fn lemma_be_round_trip(v: nat, len: nat)
    ensures
        be_value(be_bytes(v, len)) == v % pow256(len),
    decreases len,
{
    if len == 0 {
    } else {
        let rest = (len - 1) as nat;
        lemma_be_round_trip(v / 256, rest);
        lemma_be_bytes_len(v / 256, rest);
        lemma_pow256_positive(rest);
        let s = be_bytes(v, len);
        assert(s.drop_last() =~= be_bytes(v / 256, rest));
        vstd::arithmetic::div_mod::lemma_mod_breakdown(v as int, 256, pow256(rest) as int);
        vstd::arithmetic::mul::lemma_mul_is_commutative(256, pow256(rest) as int);
    }
}

/// A value below `256^len` is given back exactly.
pub proof fn lemma_be_round_trip_small(v: nat, len: nat)
    requires
        v < pow256(len),
    ensures
        be_value(be_bytes(v, len)) == v,
{
    lemma_be_round_trip(v, len);
    vstd::arithmetic::div_mod::lemma_small_mod(v, pow256(len));
}

/// Reading back the bytes of a `u8`, `u16`, `u32` or `u64` gives it back.
pub proof fn lemma_be_fixed(v: nat, len: nat)
    requires
        len == 1 || len == 2 || len == 4 || len == 8,
        len == 1 ==> v < 0x100,
        len == 2 ==> v < 0x1_0000,
        len == 4 ==> v < 0x1_0000_0000,
        len == 8 ==> v < 0x1_0000_0000_0000_0000,
    ensures
        be_value(be_bytes(v, len)) == v,
        be_bytes(v, len).len() == len,
{
    reveal_with_fuel(pow256, 9);
    lemma_be_round_trip_small(v, len);
    lemma_be_bytes_len(v, len);
}

/// byteorder's `BigEndian::write_u16` stores `n` in the first two bytes of
/// the buffer, most significant byte first; here the buffer has exactly two bytes.
#[verifier::external_body]
pub(crate) fn be_u16(n: u16) -> (b: [u8; 2])
    ensures
        b@ == be_bytes(n as nat, 2),
{
    let mut b = [0u8; 2];
    BigEndian::write_u16(&mut b, n);
    b
}

/// byteorder's `BigEndian::write_u32` stores `n` in the first four bytes of
/// the buffer, most significant byte first; here the buffer has exactly four bytes.
#[verifier::external_body]
pub(crate) fn be_u32(n: u32) -> (b: [u8; 4])
    ensures
        b@ == be_bytes(n as nat, 4),
{
    let mut b = [0u8; 4];
    BigEndian::write_u32(&mut b, n);
    b
}

/// byteorder's `BigEndian::write_u64` stores `n` in the first eight bytes of
/// the buffer, most significant byte first; here the buffer has exactly eight bytes.
#[verifier::external_body]
pub(crate) fn be_u64(n: u64) -> (b: [u8; 8])
    ensures
        b@ == be_bytes(n as nat, 8),
{
    let mut b = [0u8; 8];
    BigEndian::write_u64(&mut b, n);
    b
}

/// Appends `n` to `buf` as two big-endian bytes.
pub fn put_u16(buf: &mut Vec<u8>, n: u16)
    ensures
        final(buf)@ == old(buf)@ + be_bytes(n as nat, 2),
{
    let b = be_u16(n);
    buf.push(b[0]);
    buf.push(b[1]);
    proof {
        lemma_be_bytes_len(n as nat, 2);
    }
    assert(buf@ =~= old(buf)@ + be_bytes(n as nat, 2));
}

/// Appends one byte to `buf`.
pub fn put_u8(buf: &mut Vec<u8>, n: u8)
    ensures
        final(buf)@ == old(buf)@ + seq![n],
{
    buf.push(n);
    assert(buf@ =~= old(buf)@ + seq![n]);
}

/// Appends `n` to `buf` as four big-endian bytes.
pub fn put_u32(buf: &mut Vec<u8>, n: u32)
    ensures
        final(buf)@ == old(buf)@ + be_bytes(n as nat, 4),
{
    let b = be_u32(n);
    buf.push(b[0]);
    buf.push(b[1]);
    buf.push(b[2]);
    buf.push(b[3]);
    proof {
        lemma_be_bytes_len(n as nat, 4);
    }
    assert(buf@ =~= old(buf)@ + be_bytes(n as nat, 4));
}

/// Appends `n` to `buf` as eight big-endian bytes.
pub fn put_u64(buf: &mut Vec<u8>, n: u64)
    ensures
        final(buf)@ == old(buf)@ + be_bytes(n as nat, 8),
{
    let b = be_u64(n);
    buf.push(b[0]);
    buf.push(b[1]);
    buf.push(b[2]);
    buf.push(b[3]);
    buf.push(b[4]);
    buf.push(b[5]);
    buf.push(b[6]);
    buf.push(b[7]);
    proof {
        lemma_be_bytes_len(n as nat, 8);
    }
    assert(buf@ =~= old(buf)@ + be_bytes(n as nat, 8));
}

/// Appends all of `src` to `buf`.
pub fn put_all(buf: &mut Vec<u8>, src: &[u8])
    ensures
        final(buf)@ == old(buf)@ + src@,
{
    let mut i: usize = 0;
    while i < src.len()
        invariant
            i <= src@.len(),
            buf@ == old(buf)@ + src@.take(i as int),
        decreases src@.len() - i,
    {
        buf.push(src[i]);
        assert(src@.take(i + 1) =~= src@.take(i as int).push(src@[i as int]));
        i += 1;
    }
    assert(src@.take(src@.len() as int) =~= src@);
}

} // verus!
