//! Little-endian integer encodings, the Bitcoin compact-size varint, and
//! helpers for concatenating encoded pieces.

use vstd::prelude::*;

verus! {

/// The two bytes of `v` in little-endian order.
pub open spec fn u16_le(v: nat) -> Seq<u8> {
    seq![(v % 0x100) as u8, ((v / 0x100) % 0x100) as u8]
}

/// The four bytes of `v` in little-endian order.
pub open spec fn u32_le(v: nat) -> Seq<u8> {
    seq![
        (v % 0x100) as u8,
        ((v / 0x100) % 0x100) as u8,
        ((v / 0x1_0000) % 0x100) as u8,
        ((v / 0x100_0000) % 0x100) as u8,
    ]
}

/// The eight bytes of `v` in little-endian order.
pub open spec fn u64_le(v: nat) -> Seq<u8> {
    seq![
        (v % 0x100) as u8,
        ((v / 0x100) % 0x100) as u8,
        ((v / 0x1_0000) % 0x100) as u8,
        ((v / 0x100_0000) % 0x100) as u8,
        ((v / 0x1_0000_0000) % 0x100) as u8,
        ((v / 0x100_0000_0000) % 0x100) as u8,
        ((v / 0x1_0000_0000_0000) % 0x100) as u8,
        ((v / 0x100_0000_0000_0000) % 0x100) as u8,
    ]
}

/// Bitcoin's compact-size encoding of a length or count.
pub open spec fn varint(v: nat) -> Seq<u8> {
    if v < 0xfd {
        seq![v as u8]
    } else if v <= 0xffff {
        seq![0xfdu8] + u16_le(v)
    } else if v <= 0xffff_ffff {
        seq![0xfeu8] + u32_le(v)
    } else {
        seq![0xffu8] + u64_le(v)
    }
}

/// Appends the `n`-byte little-endian encoding of `v` for `n` in {2, 4, 8}.
pub fn push_u16_le(out: &mut Vec<u8>, v: u16)
    ensures
        final(out)@ == old(out)@ + u16_le(v as nat),
{
    out.push((v % 0x100) as u8);
    out.push(((v / 0x100) % 0x100) as u8);
    assert(out@ =~= old(out)@ + u16_le(v as nat));
}

pub fn push_u32_le(out: &mut Vec<u8>, v: u32)
    ensures
        final(out)@ == old(out)@ + u32_le(v as nat),
{
    out.push((v % 0x100) as u8);
    out.push(((v / 0x100) % 0x100) as u8);
    out.push(((v / 0x1_0000) % 0x100) as u8);
    out.push(((v / 0x100_0000) % 0x100) as u8);
    assert(out@ =~= old(out)@ + u32_le(v as nat));
}

pub fn push_u64_le(out: &mut Vec<u8>, v: u64)
    ensures
        final(out)@ == old(out)@ + u64_le(v as nat),
{
    out.push((v % 0x100) as u8);
    out.push(((v / 0x100) % 0x100) as u8);
    out.push(((v / 0x1_0000) % 0x100) as u8);
    out.push(((v / 0x100_0000) % 0x100) as u8);
    out.push(((v / 0x1_0000_0000) % 0x100) as u8);
    out.push(((v / 0x100_0000_0000) % 0x100) as u8);
    out.push(((v / 0x1_0000_0000_0000) % 0x100) as u8);
    out.push(((v / 0x100_0000_0000_0000) % 0x100) as u8);
    assert(out@ =~= old(out)@ + u64_le(v as nat));
}

/// Appends the compact-size encoding of `v`.
pub fn push_varint(out: &mut Vec<u8>, v: u64)
    ensures
        final(out)@ == old(out)@ + varint(v as nat),
{
    if v < 0xfd {
        out.push(v as u8);
        assert(out@ =~= old(out)@ + varint(v as nat));
    } else if v <= 0xffff {
        out.push(0xfd);
        push_u16_le(out, v as u16);
        assert(out@ =~= old(out)@ + varint(v as nat));
    } else if v <= 0xffff_ffff {
        out.push(0xfe);
        push_u32_le(out, v as u32);
        assert(out@ =~= old(out)@ + varint(v as nat));
    } else {
        out.push(0xff);
        push_u64_le(out, v);
        assert(out@ =~= old(out)@ + varint(v as nat));
    }
}

/// Appends all of `data` to `out`.
pub fn push_all(out: &mut Vec<u8>, data: &Vec<u8>)
    ensures
        final(out)@ == old(out)@ + data@,
{
    let mut i: usize = 0;
    while i < data.len()
        invariant
            0 <= i <= data.len(),
            out@ == old(out)@ + data@.take(i as int),
        decreases data.len() - i,
    {
        out.push(data[i]);
        assert(data@.take(i + 1) =~= data@.take(i as int) + seq![data@[i as int]]);
        assert(out@ =~= old(out)@ + data@.take(i + 1));
        i = i + 1;
    }
    assert(data@.take(data@.len() as int) =~= data@);
}

/// Appends the first `n` bytes of `data` starting at `start`.
pub fn push_range(out: &mut Vec<u8>, data: &Vec<u8>, start: usize, end: usize)
    requires
        start <= end <= data@.len(),
    ensures
        final(out)@ == old(out)@ + data@.subrange(start as int, end as int),
{
    let mut i: usize = start;
    while i < end
        invariant
            start <= i <= end <= data@.len(),
            out@ == old(out)@ + data@.subrange(start as int, i as int),
        decreases end - i,
    {
        out.push(data[i]);
        assert(data@.subrange(start as int, i + 1) =~= data@.subrange(start as int, i as int)
            + seq![data@[i as int]]);
        assert(out@ =~= old(out)@ + data@.subrange(start as int, i + 1));
        i = i + 1;
    }
}

/// Concatenation of byte sequences is associative.
pub proof fn lemma_seq_add_assoc(a: Seq<u8>, b: Seq<u8>, c: Seq<u8>)
    ensures
        (a + b) + c == a + (b + c),
{
    assert((a + b) + c =~= a + (b + c));
}

/// A fresh copy of a byte vector.
pub fn clone_bytes(v: &Vec<u8>) -> (r: Vec<u8>)
    ensures
        r@ == v@,
{
    let mut out: Vec<u8> = Vec::new();
    push_all(&mut out, v);
    assert(out@ =~= v@);
    out
}

/// True byte-for-byte equality of two byte vectors.
pub fn bytes_eq(a: &Vec<u8>, b: &Vec<u8>) -> (r: bool)
    ensures
        r == (a@ == b@),
{
    if a.len() != b.len() {
        assert(a@ != b@);
        return false;
    }
    let mut i: usize = 0;
    while i < a.len()
        invariant
            0 <= i <= a.len(),
            a@.len() == b@.len(),
            forall|j: int| 0 <= j < i ==> a@[j] == b@[j],
        decreases a.len() - i,
    {
        if a[i] != b[i] {
            return false;
        }
        i = i + 1;
    }
    assert(a@ =~= b@);
    true
}

} // verus!
