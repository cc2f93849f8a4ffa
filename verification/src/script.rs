//! Bitcoin script primitives used by the engine: minimal data pushes, the
//! P2TR output script, and the dust threshold of standard relay policy.

use vstd::prelude::*;
use crate::bytes::{push_all, push_u16_le, push_u32_le, u16_le, u32_le, varint};

verus! {

pub const OP_PUSHDATA1: u8 = 0x4c;
pub const OP_PUSHDATA2: u8 = 0x4d;
pub const OP_PUSHDATA4: u8 = 0x4e;
pub const OP_FALSE: u8 = 0x00;
pub const OP_IF: u8 = 0x63;
pub const OP_ENDIF: u8 = 0x68;
pub const OP_RETURN: u8 = 0x6a;
pub const OP_CHECKSIG: u8 = 0xac;
pub const OP_PUSHNUM_1: u8 = 0x51;

/// The minimal script encoding of a push of `data`, as Bitcoin's script
/// builder emits it.
pub open spec fn push_encoding(data: Seq<u8>) -> Seq<u8> {
    let n = data.len();
    if n <= 75 {
        seq![n as u8] + data
    } else if n <= 0xff {
        seq![OP_PUSHDATA1, n as u8] + data
    } else if n <= 0xffff {
        seq![OP_PUSHDATA2] + u16_le(n) + data
    } else {
        seq![OP_PUSHDATA4] + u32_le(n) + data
    }
}

/// Appends the minimal push of `data` to a script under construction.
pub fn push_push_slice(out: &mut Vec<u8>, data: &Vec<u8>)
    requires
        data@.len() < 0x1_0000_0000,
    ensures
        final(out)@ == old(out)@ + push_encoding(data@),
{
    let n = data.len();
    if n <= 75 {
        out.push(n as u8);
    } else if n <= 0xff {
        out.push(OP_PUSHDATA1);
        out.push(n as u8);
        assert(out@ =~= old(out)@ + seq![OP_PUSHDATA1, n as u8]);
    } else if n <= 0xffff {
        out.push(OP_PUSHDATA2);
        push_u16_le(out, n as u16);
        assert(out@ =~= old(out)@ + (seq![OP_PUSHDATA2] + u16_le(n as nat)));
    } else {
        out.push(OP_PUSHDATA4);
        push_u32_le(out, n as u32);
        assert(out@ =~= old(out)@ + (seq![OP_PUSHDATA4] + u32_le(n as nat)));
    }
    push_all(out, data);
    assert(out@ =~= old(out)@ + push_encoding(data@));
}

/// The P2TR output script for a 32-byte x-only output key: `OP_1` followed by
/// a 32-byte push of the key.
pub open spec fn p2tr_script(output_key: Seq<u8>) -> Seq<u8> {
    seq![OP_PUSHNUM_1, 32u8] + output_key
}

pub fn build_p2tr_script(output_key: &Vec<u8>) -> (r: Vec<u8>)
    requires
        output_key@.len() == 32,
    ensures
        r@ == p2tr_script(output_key@),
{
    let mut out: Vec<u8> = Vec::new();
    out.push(OP_PUSHNUM_1);
    out.push(32u8);
    push_all(&mut out, output_key);
    assert(out@ =~= p2tr_script(output_key@));
    out
}

/// An output script whose first byte is `OP_RETURN` is provably unspendable
/// and exempt from the dust rule.
pub open spec fn is_op_return(s: Seq<u8>) -> bool {
    s.len() > 0 && s[0] == OP_RETURN
}

/// A witness program per BIP-141: a version opcode (`OP_0` or `OP_1`..`OP_16`)
/// followed by a single push of 2 to 40 bytes that fills the script.
pub open spec fn is_witness_program(s: Seq<u8>) -> bool {
    &&& 4 <= s.len() <= 42
    &&& (s[0] == 0x00u8 || (0x51u8 <= s[0] && s[0] <= 0x60u8))
    &&& s[1] == s.len() - 2
}

/// The consensus-serialized size of a script: a compact-size length prefix
/// followed by the script bytes.
pub open spec fn script_ser_len(s: Seq<u8>) -> nat {
    (varint(s.len()).len() + s.len()) as nat
}

/// The dust threshold of an output with script `s`, in satoshis, per standard
/// relay policy at the default dust relay fee of 3 sat/vbyte: three times the
/// cost in vbytes of creating and later spending the output.
pub open spec fn dust_value(s: Seq<u8>) -> nat {
    if is_op_return(s) {
        0
    } else if is_witness_program(s) {
        3 * (32 + 4 + 1 + 26 + 4 + 8 + script_ser_len(s))
    } else {
        3 * (32 + 4 + 1 + 107 + 4 + 8 + script_ser_len(s))
    }
}

/// Computes the dust threshold of an output script.
pub fn compute_dust_value(s: &Vec<u8>) -> (r: u128)
    ensures
        r == dust_value(s@),
{
    let n = s.len();
    if n > 0 && s[0] == OP_RETURN {
        return 0;
    }
    let ser_len: u128 = if n < 0xfd {
        1 + n as u128
    } else if n <= 0xffff {
        3 + n as u128
    } else if n <= 0xffff_ffff {
        5 + n as u128
    } else {
        9 + n as u128
    };
    assert(ser_len == script_ser_len(s@));
    let witness = 4 <= n && n <= 42 && (s[0] == 0x00u8 || (0x51u8 <= s[0] && s[0] <= 0x60u8))
        && s[1] as usize == n - 2;
    if witness {
        3 * (75 + ser_len)
    } else {
        3 * (156 + ser_len)
    }
}

} // verus!
