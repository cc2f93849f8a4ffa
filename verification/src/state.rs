//! The persisted reveal state's byte format: a deterministic, length-prefixed
//! encoding of the inscriptions, scripts and key material, written before the
//! commit address is reported and read back by Phase 2 in a later process.
//! The store key is the commit address string; it is not repeated in the
//! value.

use vstd::prelude::*;
use vstd::std_specs::vec::spec_vec_len;
use crate::bytes::{push_all, push_u32_le, push_u64_le, u32_le, u64_le};
use crate::envelope::{opt_id_view, opt_view, Inscription, InscriptionId, InscriptionIdV, InscriptionV};
use crate::flow::TaprootData;

verus! {

/// A length-prefixed byte string.
pub open spec fn enc_bytes(b: Seq<u8>) -> Seq<u8> {
    u64_le(b.len()) + b
}

/// An optional byte string: a presence byte, then the string if present.
pub open spec fn enc_opt_bytes(o: Option<Seq<u8>>) -> Seq<u8> {
    match o {
        Some(b) => seq![1u8] + enc_bytes(b),
        None => seq![0u8],
    }
}

pub open spec fn enc_id(id: InscriptionIdV) -> Seq<u8> {
    enc_bytes(id.txid) + u32_le(id.index as nat)
}

pub open spec fn enc_opt_id(o: Option<InscriptionIdV>) -> Seq<u8> {
    match o {
        Some(id) => seq![1u8] + enc_id(id),
        None => seq![0u8],
    }
}

pub open spec fn enc_id_list(s: Seq<InscriptionIdV>) -> Seq<u8>
    decreases s.len(),
{
    if s.len() == 0 {
        Seq::empty()
    } else {
        enc_id(s[0]) + enc_id_list(s.drop_first())
    }
}

pub open spec fn enc_ids(s: Seq<InscriptionIdV>) -> Seq<u8> {
    u64_le(s.len()) + enc_id_list(s)
}

pub open spec fn enc_opt_u64(o: Option<u64>) -> Seq<u8> {
    match o {
        Some(v) => seq![1u8] + u64_le(v as nat),
        None => seq![0u8],
    }
}

/// Sixteen little-endian bytes.
pub open spec fn u128_le(v: nat) -> Seq<u8> {
    u64_le(v % 0x1_0000_0000_0000_0000) + u64_le(v / 0x1_0000_0000_0000_0000)
}

pub open spec fn enc_opt_u128(o: Option<u128>) -> Seq<u8> {
    match o {
        Some(v) => seq![1u8] + u128_le(v as nat),
        None => seq![0u8],
    }
}

/// One inscription's fields, in a fixed order.
pub open spec fn enc_inscription(i: InscriptionV) -> Seq<u8> {
    enc_opt_bytes(i.body) + enc_opt_bytes(i.content_type) + enc_opt_bytes(i.content_encoding)
        + enc_opt_id(i.delegate) + enc_opt_bytes(i.metadata) + enc_opt_bytes(i.metaprotocol)
        + enc_ids(i.parents) + enc_opt_u64(i.pointer) + enc_opt_u128(i.rune)
}

pub open spec fn enc_inscription_list(s: Seq<InscriptionV>) -> Seq<u8>
    decreases s.len(),
{
    if s.len() == 0 {
        Seq::empty()
    } else {
        enc_inscription(s[0]) + enc_inscription_list(s.drop_first())
    }
}

pub open spec fn enc_inscriptions(s: Seq<InscriptionV>) -> Seq<u8> {
    u64_le(s.len()) + enc_inscription_list(s)
}

/// The whole record: inscriptions, reveal script, control block, untweaked
/// and tweaked secret keys.
pub open spec fn enc_state(
    inscriptions: Seq<InscriptionV>,
    reveal_script: Seq<u8>,
    control_block: Seq<u8>,
    untweaked_secret: Seq<u8>,
    tweaked_secret: Seq<u8>,
) -> Seq<u8> {
    enc_inscriptions(inscriptions) + enc_bytes(reveal_script) + enc_bytes(control_block)
        + enc_bytes(untweaked_secret) + enc_bytes(tweaked_secret)
}

pub open spec fn state_enc_of(s: TaprootData) -> Seq<u8> {
    enc_state(
        s.inscriptions@.map_values(|i: Inscription| i@),
        s.reveal_script@,
        s.control_block@,
        s.untweaked_secret@,
        s.tweaked_secret@,
    )
}

pub proof fn lemma_enc_id_list_take(s: Seq<InscriptionIdV>, i: int)
    requires
        0 <= i < s.len(),
    ensures
        enc_id_list(s.take(i + 1)) == enc_id_list(s.take(i)) + enc_id(s[i]),
    decreases i,
{
    if i == 0 {
        assert(s.take(1).drop_first() =~= Seq::<InscriptionIdV>::empty());
        assert(enc_id_list(Seq::<InscriptionIdV>::empty()) == Seq::<u8>::empty());
        assert(s.take(0) =~= Seq::<InscriptionIdV>::empty());
        assert(enc_id_list(s.take(1)) =~= enc_id(s[0]));
    } else {
        lemma_enc_id_list_take(s.drop_first(), i - 1);
        assert(s.take(i + 1).drop_first() =~= s.drop_first().take(i));
        assert(s.take(i).drop_first() =~= s.drop_first().take(i - 1));
        assert(s.drop_first()[i - 1] == s[i]);
        assert(enc_id_list(s.take(i + 1)) =~= enc_id_list(s.take(i)) + enc_id(s[i]));
    }
}

pub proof fn lemma_enc_inscription_list_take(s: Seq<InscriptionV>, i: int)
    requires
        0 <= i < s.len(),
    ensures
        enc_inscription_list(s.take(i + 1)) == enc_inscription_list(s.take(i)) + enc_inscription(
            s[i],
        ),
    decreases i,
{
    if i == 0 {
        assert(s.take(1).drop_first() =~= Seq::<InscriptionV>::empty());
        assert(enc_inscription_list(Seq::<InscriptionV>::empty()) == Seq::<u8>::empty());
        assert(s.take(0) =~= Seq::<InscriptionV>::empty());
        assert(enc_inscription_list(s.take(1)) =~= enc_inscription(s[0]));
    } else {
        lemma_enc_inscription_list_take(s.drop_first(), i - 1);
        assert(s.take(i + 1).drop_first() =~= s.drop_first().take(i));
        assert(s.take(i).drop_first() =~= s.drop_first().take(i - 1));
        assert(s.drop_first()[i - 1] == s[i]);
        assert(enc_inscription_list(s.take(i + 1)) =~= enc_inscription_list(s.take(i))
            + enc_inscription(s[i]));
    }
}

fn push_enc_bytes(out: &mut Vec<u8>, b: &Vec<u8>)
    ensures
        final(out)@ == old(out)@ + enc_bytes(b@),
{
    push_u64_le(out, b.len() as u64);
    push_all(out, b);
    assert(out@ =~= old(out)@ + enc_bytes(b@));
}

fn push_enc_opt_bytes(out: &mut Vec<u8>, o: &Option<Vec<u8>>)
    ensures
        final(out)@ == old(out)@ + enc_opt_bytes(opt_view(*o)),
{
    match o {
        Some(b) => {
            out.push(1u8);
            push_enc_bytes(out, b);
        },
        None => {
            out.push(0u8);
        },
    }
    assert(out@ =~= old(out)@ + enc_opt_bytes(opt_view(*o)));
}

fn push_enc_id(out: &mut Vec<u8>, id: &InscriptionId)
    ensures
        final(out)@ == old(out)@ + enc_id(id@),
{
    push_enc_bytes(out, &id.txid);
    push_u32_le(out, id.index);
    assert(out@ =~= old(out)@ + enc_id(id@));
}

fn push_enc_opt_id(out: &mut Vec<u8>, o: &Option<InscriptionId>)
    ensures
        final(out)@ == old(out)@ + enc_opt_id(opt_id_view(*o)),
{
    match o {
        Some(id) => {
            out.push(1u8);
            push_enc_id(out, id);
        },
        None => {
            out.push(0u8);
        },
    }
    assert(out@ =~= old(out)@ + enc_opt_id(opt_id_view(*o)));
}

fn push_enc_ids(out: &mut Vec<u8>, ids: &Vec<InscriptionId>)
    ensures
        final(out)@ == old(out)@ + enc_ids(ids@.map_values(|p: InscriptionId| p@)),
{
    let ghost views = ids@.map_values(|p: InscriptionId| p@);
    push_u64_le(out, ids.len() as u64);
    let ghost pre = out@;
    let mut i: usize = 0;
    proof {
        assert(views.take(0) =~= Seq::<InscriptionIdV>::empty());
    }
    while i < ids.len()
        invariant
            0 <= i <= ids@.len(),
            views == ids@.map_values(|p: InscriptionId| p@),
            views.len() == ids@.len(),
            out@ == pre + enc_id_list(views.take(i as int)),
        decreases ids@.len() - i,
    {
        push_enc_id(out, &ids[i]);
        proof {
            assert(views[i as int] == ids@[i as int]@);
            lemma_enc_id_list_take(views, i as int);
        }
        i = i + 1;
    }
    proof {
        assert(views.take(views.len() as int) =~= views);
        assert(out@ =~= old(out)@ + enc_ids(views));
    }
}

fn push_enc_opt_u64(out: &mut Vec<u8>, o: &Option<u64>)
    ensures
        final(out)@ == old(out)@ + enc_opt_u64(*o),
{
    match o {
        Some(v) => {
            out.push(1u8);
            push_u64_le(out, *v);
        },
        None => {
            out.push(0u8);
        },
    }
    assert(out@ =~= old(out)@ + enc_opt_u64(*o));
}

fn push_u128_le(out: &mut Vec<u8>, v: u128)
    ensures
        final(out)@ == old(out)@ + u128_le(v as nat),
{
    push_u64_le(out, (v % 0x1_0000_0000_0000_0000) as u64);
    push_u64_le(out, (v / 0x1_0000_0000_0000_0000) as u64);
    assert(out@ =~= old(out)@ + u128_le(v as nat));
}

fn push_enc_opt_u128(out: &mut Vec<u8>, o: &Option<u128>)
    ensures
        final(out)@ == old(out)@ + enc_opt_u128(*o),
{
    match o {
        Some(v) => {
            out.push(1u8);
            push_u128_le(out, *v);
        },
        None => {
            out.push(0u8);
        },
    }
    assert(out@ =~= old(out)@ + enc_opt_u128(*o));
}

/// Reassociating the nine encoded fields yields the inscription encoding.
#[verifier::rlimit(100)]
proof fn lemma_enc_inscription_assoc(pre: Seq<u8>, i: InscriptionV)
    ensures
        pre + enc_opt_bytes(i.body) + enc_opt_bytes(i.content_type) + enc_opt_bytes(
            i.content_encoding,
        ) + enc_opt_id(i.delegate) + enc_opt_bytes(i.metadata) + enc_opt_bytes(i.metaprotocol)
            + enc_ids(i.parents) + enc_opt_u64(i.pointer) + enc_opt_u128(i.rune) == pre
            + enc_inscription(i),
{
    assert(pre + enc_opt_bytes(i.body) + enc_opt_bytes(i.content_type) + enc_opt_bytes(
        i.content_encoding,
    ) + enc_opt_id(i.delegate) + enc_opt_bytes(i.metadata) + enc_opt_bytes(i.metaprotocol)
        + enc_ids(i.parents) + enc_opt_u64(i.pointer) + enc_opt_u128(i.rune) =~= pre
        + enc_inscription(i));
}

#[verifier::rlimit(100)]
fn push_enc_inscription(out: &mut Vec<u8>, insc: &Inscription)
    ensures
        final(out)@ == old(out)@ + enc_inscription(insc@),
{
    push_enc_opt_bytes(out, &insc.body);
    let ghost e1 = old(out)@ + enc_opt_bytes(insc@.body);
    assert(out@ == e1);
    push_enc_opt_bytes(out, &insc.content_type);
    let ghost e2 = e1 + enc_opt_bytes(insc@.content_type);
    assert(out@ == e2);
    push_enc_opt_bytes(out, &insc.content_encoding);
    let ghost e3 = e2 + enc_opt_bytes(insc@.content_encoding);
    assert(out@ == e3);
    push_enc_opt_id(out, &insc.delegate);
    let ghost e4 = e3 + enc_opt_id(insc@.delegate);
    assert(out@ == e4);
    push_enc_opt_bytes(out, &insc.metadata);
    let ghost e5 = e4 + enc_opt_bytes(insc@.metadata);
    assert(out@ == e5);
    push_enc_opt_bytes(out, &insc.metaprotocol);
    let ghost e6 = e5 + enc_opt_bytes(insc@.metaprotocol);
    assert(out@ == e6);
    push_enc_ids(out, &insc.parents);
    let ghost e7 = e6 + enc_ids(insc@.parents);
    assert(out@ == e7);
    push_enc_opt_u64(out, &insc.pointer);
    let ghost e8 = e7 + enc_opt_u64(insc@.pointer);
    assert(out@ == e8);
    push_enc_opt_u128(out, &insc.rune);
    let ghost e9 = e8 + enc_opt_u128(insc@.rune);
    assert(out@ == e9);
    proof {
        lemma_enc_inscription_assoc(old(out)@, insc@);
    }
}

/// Serializes the record. The encoding is deterministic: equal states give
/// equal bytes.
pub fn encode_state(state: &TaprootData) -> (r: Vec<u8>)
    ensures
        r@ == state_enc_of(*state),
{
    let ghost views = state.inscriptions@.map_values(|i: Inscription| i@);
    let mut out: Vec<u8> = Vec::new();
    push_u64_le(&mut out, state.inscriptions.len() as u64);
    let ghost pre = out@;
    let mut i: usize = 0;
    proof {
        assert(views.take(0) =~= Seq::<InscriptionV>::empty());
    }
    while i < state.inscriptions.len()
        invariant
            0 <= i <= state.inscriptions@.len(),
            views == state.inscriptions@.map_values(|i: Inscription| i@),
            views.len() == state.inscriptions@.len(),
            out@ == pre + enc_inscription_list(views.take(i as int)),
        decreases state.inscriptions@.len() - i,
    {
        push_enc_inscription(&mut out, &state.inscriptions[i]);
        proof {
            assert(views[i as int] == state.inscriptions@[i as int]@);
            lemma_enc_inscription_list_take(views, i as int);
        }
        i = i + 1;
    }
    proof {
        assert(views.take(views.len() as int) =~= views);
    }
    let ghost f0 = enc_inscriptions(views);
    assert(out@ =~= f0);
    push_enc_bytes(&mut out, &state.reveal_script);
    let ghost f1 = f0 + enc_bytes(state.reveal_script@);
    assert(out@ == f1);
    push_enc_bytes(&mut out, &state.control_block);
    let ghost f2 = f1 + enc_bytes(state.control_block@);
    assert(out@ == f2);
    push_enc_bytes(&mut out, &state.untweaked_secret);
    let ghost f3 = f2 + enc_bytes(state.untweaked_secret@);
    assert(out@ == f3);
    push_enc_bytes(&mut out, &state.tweaked_secret);
    assert(out@ =~= state_enc_of(*state));
    out
}

/// Reconstructing a 64-bit value from its eight little-endian digits.
#[verifier::rlimit(100)]
proof fn lemma_u64_le_digits(v: u64, b0: u8, b1: u8, b2: u8, b3: u8, b4: u8, b5: u8, b6: u8, b7: u8)
    requires
        v == b0 + b1 * 0x100 + b2 * 0x1_0000 + b3 * 0x100_0000 + b4 * 0x1_0000_0000 + b5
            * 0x100_0000_0000 + b6 * 0x1_0000_0000_0000 + b7 * 0x100_0000_0000_0000,
    ensures
        u64_le(v as nat) == seq![b0, b1, b2, b3, b4, b5, b6, b7],
{
    let r1 = b1 + b2 * 0x100 + b3 * 0x1_0000 + b4 * 0x100_0000 + b5 * 0x1_0000_0000 + b6
        * 0x100_0000_0000 + b7 * 0x1_0000_0000_0000;
    let r2 = b2 + b3 * 0x100 + b4 * 0x1_0000 + b5 * 0x100_0000 + b6 * 0x1_0000_0000 + b7
        * 0x100_0000_0000;
    let r3 = b3 + b4 * 0x100 + b5 * 0x1_0000 + b6 * 0x100_0000 + b7 * 0x1_0000_0000;
    let r4 = b4 + b5 * 0x100 + b6 * 0x1_0000 + b7 * 0x100_0000;
    let r5 = b5 + b6 * 0x100 + b7 * 0x1_0000;
    let r6 = b6 + b7 * 0x100;
    let r7 = b7 as int;
    vstd::arithmetic::div_mod::lemma_fundamental_div_mod_converse(v as int, 0x100, r1, b0 as int);
    vstd::arithmetic::div_mod::lemma_fundamental_div_mod_converse(r1, 0x100, r2, b1 as int);
    vstd::arithmetic::div_mod::lemma_fundamental_div_mod_converse(r2, 0x100, r3, b2 as int);
    vstd::arithmetic::div_mod::lemma_fundamental_div_mod_converse(r3, 0x100, r4, b3 as int);
    vstd::arithmetic::div_mod::lemma_fundamental_div_mod_converse(r4, 0x100, r5, b4 as int);
    vstd::arithmetic::div_mod::lemma_fundamental_div_mod_converse(r5, 0x100, r6, b5 as int);
    vstd::arithmetic::div_mod::lemma_fundamental_div_mod_converse(r6, 0x100, r7, b6 as int);
    vstd::arithmetic::div_mod::lemma_fundamental_div_mod_converse(r7, 0x100, 0, b7 as int);
    assert(v as int % 0x100 == b0);
    assert((v as int / 0x100) % 0x100 == b1);
    assert((v as int / 0x1_0000) % 0x100 == b2) by {
        assert(v as int / 0x100 == r1 && r1 / 0x100 == r2);
        vstd::arithmetic::div_mod::lemma_div_denominator(v as int, 0x100, 0x100);
    }
    assert((v as int / 0x100_0000) % 0x100 == b3) by {
        vstd::arithmetic::div_mod::lemma_div_denominator(v as int, 0x1_0000, 0x100);
        assert(v as int / 0x1_0000 == r2 && r2 / 0x100 == r3);
    }
    assert((v as int / 0x1_0000_0000) % 0x100 == b4) by {
        vstd::arithmetic::div_mod::lemma_div_denominator(v as int, 0x100_0000, 0x100);
        assert(v as int / 0x100_0000 == r3 && r3 / 0x100 == r4);
    }
    assert((v as int / 0x100_0000_0000) % 0x100 == b5) by {
        vstd::arithmetic::div_mod::lemma_div_denominator(v as int, 0x1_0000_0000, 0x100);
        assert(v as int / 0x1_0000_0000 == r4 && r4 / 0x100 == r5);
    }
    assert((v as int / 0x1_0000_0000_0000) % 0x100 == b6) by {
        vstd::arithmetic::div_mod::lemma_div_denominator(v as int, 0x100_0000_0000, 0x100);
        assert(v as int / 0x100_0000_0000 == r5 && r5 / 0x100 == r6);
    }
    assert((v as int / 0x100_0000_0000_0000) % 0x100 == b7) by {
        vstd::arithmetic::div_mod::lemma_div_denominator(v as int, 0x1_0000_0000_0000, 0x100);
        assert(v as int / 0x1_0000_0000_0000 == r6 && r6 / 0x100 == r7);
    }
    assert(u64_le(v as nat) =~= seq![b0, b1, b2, b3, b4, b5, b6, b7]);
}

/// Reconstructing a 32-bit value from its four little-endian digits.
#[verifier::rlimit(100)]
proof fn lemma_u32_le_digits(v: u32, b0: u8, b1: u8, b2: u8, b3: u8)
    requires
        v == b0 + b1 * 0x100 + b2 * 0x1_0000 + b3 * 0x100_0000,
    ensures
        u32_le(v as nat) == seq![b0, b1, b2, b3],
{
    let r1 = b1 + b2 * 0x100 + b3 * 0x1_0000;
    let r2 = b2 + b3 * 0x100;
    let r3 = b3 as int;
    vstd::arithmetic::div_mod::lemma_fundamental_div_mod_converse(v as int, 0x100, r1, b0 as int);
    vstd::arithmetic::div_mod::lemma_fundamental_div_mod_converse(r1, 0x100, r2, b1 as int);
    vstd::arithmetic::div_mod::lemma_fundamental_div_mod_converse(r2, 0x100, r3, b2 as int);
    vstd::arithmetic::div_mod::lemma_fundamental_div_mod_converse(r3, 0x100, 0, b3 as int);
    assert(u32_le(v as nat) =~= seq![b0, b1, b2, b3]);
}

/// A 64-bit value is the weighted sum of its little-endian digits.
proof fn lemma_u64_le_recompose(v: u64)
    ensures
        v == u64_le(v as nat)[0] + u64_le(v as nat)[1] * 0x100 + u64_le(v as nat)[2] * 0x1_0000
            + u64_le(v as nat)[3] * 0x100_0000 + u64_le(v as nat)[4] * 0x1_0000_0000 + u64_le(
            v as nat,
        )[5] * 0x100_0000_0000 + u64_le(v as nat)[6] * 0x1_0000_0000_0000 + u64_le(v as nat)[7]
            * 0x100_0000_0000_0000,
{
    let x = v as int;
    vstd::arithmetic::div_mod::lemma_fundamental_div_mod(x, 0x100);
    vstd::arithmetic::div_mod::lemma_fundamental_div_mod(x / 0x100, 0x100);
    vstd::arithmetic::div_mod::lemma_fundamental_div_mod(x / 0x1_0000, 0x100);
    vstd::arithmetic::div_mod::lemma_fundamental_div_mod(x / 0x100_0000, 0x100);
    vstd::arithmetic::div_mod::lemma_fundamental_div_mod(x / 0x1_0000_0000, 0x100);
    vstd::arithmetic::div_mod::lemma_fundamental_div_mod(x / 0x100_0000_0000, 0x100);
    vstd::arithmetic::div_mod::lemma_fundamental_div_mod(x / 0x1_0000_0000_0000, 0x100);
    assert(x / 0x100_0000_0000_0000 < 0x100);
    assert(x / 0x100 / 0x100 == x / 0x1_0000) by {
        vstd::arithmetic::div_mod::lemma_div_denominator(x, 0x100, 0x100);
    }
    assert(x / 0x1_0000 / 0x100 == x / 0x100_0000) by {
        vstd::arithmetic::div_mod::lemma_div_denominator(x, 0x1_0000, 0x100);
    }
    assert(x / 0x100_0000 / 0x100 == x / 0x1_0000_0000) by {
        vstd::arithmetic::div_mod::lemma_div_denominator(x, 0x100_0000, 0x100);
    }
    assert(x / 0x1_0000_0000 / 0x100 == x / 0x100_0000_0000) by {
        vstd::arithmetic::div_mod::lemma_div_denominator(x, 0x1_0000_0000, 0x100);
    }
    assert(x / 0x100_0000_0000 / 0x100 == x / 0x1_0000_0000_0000) by {
        vstd::arithmetic::div_mod::lemma_div_denominator(x, 0x100_0000_0000, 0x100);
    }
    assert(x / 0x1_0000_0000_0000 / 0x100 == x / 0x100_0000_0000_0000) by {
        vstd::arithmetic::div_mod::lemma_div_denominator(x, 0x1_0000_0000_0000, 0x100);
    }
}

/// A 32-bit value is the weighted sum of its little-endian digits.
proof fn lemma_u32_le_recompose(v: u32)
    ensures
        v == u32_le(v as nat)[0] + u32_le(v as nat)[1] * 0x100 + u32_le(v as nat)[2] * 0x1_0000
            + u32_le(v as nat)[3] * 0x100_0000,
{
    let x = v as int;
    vstd::arithmetic::div_mod::lemma_fundamental_div_mod(x, 0x100);
    vstd::arithmetic::div_mod::lemma_fundamental_div_mod(x / 0x100, 0x100);
    vstd::arithmetic::div_mod::lemma_fundamental_div_mod(x / 0x1_0000, 0x100);
    assert(x / 0x100_0000 < 0x100);
    assert(x / 0x100 / 0x100 == x / 0x1_0000) by {
        vstd::arithmetic::div_mod::lemma_div_denominator(x, 0x100, 0x100);
    }
    assert(x / 0x1_0000 / 0x100 == x / 0x100_0000) by {
        vstd::arithmetic::div_mod::lemma_div_denominator(x, 0x1_0000, 0x100);
    }
}

/// A suffix equal to a concatenation splits at the boundary.
proof fn lemma_suffix_split(bytes: Seq<u8>, pos: int, a: Seq<u8>, b: Seq<u8>)
    requires
        0 <= pos <= bytes.len(),
        bytes.skip(pos) == a + b,
    ensures
        pos + a.len() <= bytes.len(),
        bytes.subrange(pos, pos + a.len()) == a,
        bytes.skip(pos + a.len()) == b,
{
    assert(bytes.skip(pos).len() == bytes.len() - pos);
    assert(forall|i: int| 0 <= i < a.len() ==> #[trigger] (a + b)[i] == a[i]);
    assert(forall|i: int|
        0 <= i < bytes.len() - pos ==> #[trigger] bytes.skip(pos)[i] == bytes[pos + i]);
    assert(bytes.subrange(pos, pos + a.len()) =~= a);
    assert(bytes.skip(pos + a.len()).len() == b.len());
    assert forall|i: int| 0 <= i < b.len() implies bytes.skip(pos + a.len())[i] == b[i] by {
        assert(bytes.skip(pos + a.len())[i] == bytes[pos + a.len() + i]);
        assert(bytes.skip(pos)[a.len() + i] == bytes[pos + a.len() + i]);
        assert((a + b)[a.len() + i] == b[i]);
    }
    assert(bytes.skip(pos + a.len()) =~= b);
}

/// Reads one byte.
fn rd_u8(bytes: &Vec<u8>, pos: usize) -> (r: Option<(u8, usize)>)
    ensures
        r matches Some(p) ==> pos < bytes@.len() && p.1 == pos + 1 && bytes@[pos as int] == p.0,
        r is None <==> pos >= bytes@.len(),
{
    if pos < bytes.len() {
        Some((bytes[pos], pos + 1))
    } else {
        None
    }
}

/// Reads eight little-endian bytes as a 64-bit value.
fn rd_u64(bytes: &Vec<u8>, pos: usize) -> (r: Option<(u64, usize)>)
    ensures
        r matches Some(p) ==> pos + 8 <= bytes@.len() && p.1 == pos + 8 && u64_le(p.0 as nat)
            == bytes@.subrange(pos as int, pos as int + 8),
        r is None <==> pos + 8 > bytes@.len(),
        forall|v: u64, rest: Seq<u8>|
            (pos <= bytes@.len() && bytes@.skip(pos as int) == u64_le(v as nat) + rest) ==> (r
                matches Some(p) && p.0 == v && p.1 == pos + 8),
{
    proof {
        assert forall|v: u64, rest: Seq<u8>|
            (pos <= bytes@.len() && bytes@.skip(pos as int) == u64_le(v as nat) + rest) implies pos
            + 8 <= bytes@.len() && bytes@.subrange(pos as int, pos as int + 8) == u64_le(
            v as nat,
        ) by {
            assert(bytes@.skip(pos as int).len() == bytes@.len() - pos);
            assert(u64_le(v as nat).len() == 8);
            assert(forall|i: int|
                0 <= i < 8 ==> bytes@.skip(pos as int)[i] == #[trigger] u64_le(v as nat)[i]);
            assert(forall|i: int|
                0 <= i < 8 ==> bytes@.skip(pos as int)[i] == bytes@[pos + i]);
            assert(bytes@.subrange(pos as int, pos as int + 8) =~= u64_le(v as nat));
        }
    }
    if bytes.len() < 8 || pos > bytes.len() - 8 {
        return None;
    }
    let b0 = bytes[pos];
    let b1 = bytes[pos + 1];
    let b2 = bytes[pos + 2];
    let b3 = bytes[pos + 3];
    let b4 = bytes[pos + 4];
    let b5 = bytes[pos + 5];
    let b6 = bytes[pos + 6];
    let b7 = bytes[pos + 7];
    let v: u64 = (b0 as u64) + (b1 as u64) * 0x100 + (b2 as u64) * 0x1_0000 + (b3 as u64)
        * 0x100_0000 + (b4 as u64) * 0x1_0000_0000 + (b5 as u64) * 0x100_0000_0000 + (b6 as u64)
        * 0x1_0000_0000_0000 + (b7 as u64) * 0x100_0000_0000_0000;
    proof {
        lemma_u64_le_digits(v, b0, b1, b2, b3, b4, b5, b6, b7);
        assert(bytes@.subrange(pos as int, pos as int + 8) =~= seq![b0, b1, b2, b3, b4, b5, b6, b7]);
        assert forall|w: u64, rest: Seq<u8>|
            (pos <= bytes@.len() && bytes@.skip(pos as int) == u64_le(w as nat) + rest) implies w
            == v by {
            assert(bytes@.subrange(pos as int, pos as int + 8) =~= u64_le(w as nat));
            lemma_u64_le_recompose(w);
        }
    }
    Some((v, pos + 8))
}

/// Reads four little-endian bytes as a 32-bit value.
fn rd_u32(bytes: &Vec<u8>, pos: usize) -> (r: Option<(u32, usize)>)
    ensures
        r matches Some(p) ==> pos + 4 <= bytes@.len() && p.1 == pos + 4 && u32_le(p.0 as nat)
            == bytes@.subrange(pos as int, pos as int + 4),
        r is None <==> pos + 4 > bytes@.len(),
        forall|v: u32, rest: Seq<u8>|
            (pos <= bytes@.len() && bytes@.skip(pos as int) == u32_le(v as nat) + rest) ==> (r
                matches Some(p) && p.0 == v && p.1 == pos + 4),
{
    proof {
        assert forall|v: u32, rest: Seq<u8>|
            (pos <= bytes@.len() && bytes@.skip(pos as int) == u32_le(v as nat) + rest) implies pos
            + 4 <= bytes@.len() && bytes@.subrange(pos as int, pos as int + 4) == u32_le(
            v as nat,
        ) by {
            lemma_suffix_split(bytes@, pos as int, u32_le(v as nat), rest);
        }
    }
    if bytes.len() < 4 || pos > bytes.len() - 4 {
        return None;
    }
    let b0 = bytes[pos];
    let b1 = bytes[pos + 1];
    let b2 = bytes[pos + 2];
    let b3 = bytes[pos + 3];
    let v: u32 = (b0 as u32) + (b1 as u32) * 0x100 + (b2 as u32) * 0x1_0000 + (b3 as u32)
        * 0x100_0000;
    proof {
        lemma_u32_le_digits(v, b0, b1, b2, b3);
        assert(bytes@.subrange(pos as int, pos as int + 4) =~= seq![b0, b1, b2, b3]);
        assert forall|w: u32, rest: Seq<u8>|
            (pos <= bytes@.len() && bytes@.skip(pos as int) == u32_le(w as nat) + rest) implies w
            == v by {
            lemma_suffix_split(bytes@, pos as int, u32_le(w as nat), rest);
            lemma_u32_le_recompose(w);
        }
    }
    Some((v, pos + 4))
}

/// Reads a length-prefixed byte string.
fn rd_bytes(bytes: &Vec<u8>, pos: usize) -> (r: Option<(Vec<u8>, usize)>)
    ensures
        r matches Some(p) ==> pos <= p.1 <= bytes@.len() && enc_bytes(p.0@) == bytes@.subrange(
            pos as int,
            p.1 as int,
        ),
        forall|b: Seq<u8>, rest: Seq<u8>|
            (pos <= bytes@.len() && bytes@.skip(pos as int) == enc_bytes(b) + rest && b.len()
                <= usize::MAX) ==> (r matches Some(p) && p.0@ == b && p.1 == pos + 8 + b.len()),
{
    proof {
        assert forall|b: Seq<u8>, rest: Seq<u8>|
            (pos <= bytes@.len() && bytes@.skip(pos as int) == enc_bytes(b) + rest && b.len()
                <= usize::MAX) implies (pos <= bytes@.len() && bytes@.skip(pos as int) == u64_le(
            ((b.len() as u64) as nat),
        ) + (b + rest)) by {
            assert((b.len() as u64) as nat == b.len());
            assert(enc_bytes(b) + rest =~= u64_le(b.len()) + (b + rest));
        }
    }
    let (n64, p1) = match rd_u64(bytes, pos) {
        Some(p) => p,
        None => return None,
    };
    proof {
        assert forall|b: Seq<u8>, rest: Seq<u8>|
            (pos <= bytes@.len() && bytes@.skip(pos as int) == enc_bytes(b) + rest && b.len()
                <= usize::MAX) implies (n64 == b.len() && bytes@.skip(p1 as int) == b + rest) by {
            assert((b.len() as u64) as nat == b.len());
            lemma_suffix_split(bytes@, pos as int, u64_le(b.len()), b + rest);
        }
    }
    if n64 > usize::MAX as u64 {
        return None;
    }
    let n = n64 as usize;
    if n > bytes.len() - p1 {
        return None;
    }
    let mut v: Vec<u8> = Vec::new();
    crate::bytes::push_range(&mut v, bytes, p1, p1 + n);
    proof {
        assert(v@.len() == n64 as nat);
        assert(bytes@.subrange(pos as int, p1 as int + n) =~= bytes@.subrange(
            pos as int,
            p1 as int,
        ) + bytes@.subrange(p1 as int, p1 as int + n));
        assert(enc_bytes(v@) =~= bytes@.subrange(pos as int, p1 as int + n));
        assert forall|b: Seq<u8>, rest: Seq<u8>|
            (pos <= bytes@.len() && bytes@.skip(pos as int) == enc_bytes(b) + rest && b.len()
                <= usize::MAX) implies (v@ == b && p1 + n == pos + 8 + b.len()) by {
            lemma_suffix_split(bytes@, p1 as int, b, rest);
            assert(v@ =~= b);
        }
    }
    Some((v, p1 + n))
}

/// Reads an optional length-prefixed byte string.
fn rd_opt_bytes(bytes: &Vec<u8>, pos: usize) -> (r: Option<(Option<Vec<u8>>, usize)>)
    ensures
        r matches Some(p) ==> pos <= p.1 <= bytes@.len() && enc_opt_bytes(opt_view(p.0))
            == bytes@.subrange(pos as int, p.1 as int),
        forall|o: Option<Seq<u8>>, rest: Seq<u8>|
            (pos <= bytes@.len() && bytes@.skip(pos as int) == enc_opt_bytes(o) + rest && (o
                matches Some(bb) ==> bb.len() <= usize::MAX)) ==> (r matches Some(p) && opt_view(
                p.0,
            ) == o && p.1 == pos + enc_opt_bytes(o).len()),
{
    proof {
        assert forall|o: Option<Seq<u8>>, rest: Seq<u8>|
            (pos <= bytes@.len() && bytes@.skip(pos as int) == #[trigger] (enc_opt_bytes(o)
                + rest)) implies pos < bytes@.len() && bytes@[pos as int] == enc_opt_bytes(
            o,
        )[0] by {
            lemma_suffix_split(bytes@, pos as int, enc_opt_bytes(o), rest);
            assert(bytes@.skip(pos as int)[0] == enc_opt_bytes(o)[0]);
        }
    }
    let (tag, p1) = match rd_u8(bytes, pos) {
        Some(p) => p,
        None => return None,
    };
    if tag == 0 {
        proof {
            assert(bytes@.subrange(pos as int, p1 as int) =~= seq![0u8]);
            assert forall|o: Option<Seq<u8>>, rest: Seq<u8>|
                (pos <= bytes@.len() && bytes@.skip(pos as int) == #[trigger] (enc_opt_bytes(o)
                    + rest)) implies o is None by {
                if o is Some {
                    assert(enc_opt_bytes(o)[0] == 1u8);
                }
            }
        }
        Some((None, p1))
    } else if tag == 1 {
        proof {
            assert forall|o: Option<Seq<u8>>, rest: Seq<u8>|
                (pos <= bytes@.len() && bytes@.skip(pos as int) == #[trigger] (enc_opt_bytes(o)
                    + rest) && (o matches Some(bb) ==> bb.len() <= usize::MAX)) implies (o is Some
                && p1 <= bytes@.len() && bytes@.skip(p1 as int) == enc_bytes(o->Some_0) + rest
                && o->Some_0.len() <= usize::MAX) by {
                if o is None {
                    assert(enc_opt_bytes(o)[0] == 0u8);
                }
                assert(enc_opt_bytes(o) + rest =~= seq![1u8] + (enc_bytes(o->Some_0) + rest));
                lemma_suffix_split(bytes@, pos as int, seq![1u8], enc_bytes(o->Some_0) + rest);
            }
        }
        let (v, p2) = match rd_bytes(bytes, p1) {
            Some(p) => p,
            None => return None,
        };
        proof {
            assert(bytes@.subrange(pos as int, p2 as int) =~= bytes@.subrange(
                pos as int,
                p1 as int,
            ) + bytes@.subrange(p1 as int, p2 as int));
            assert(bytes@.subrange(pos as int, p1 as int) =~= seq![1u8]);
        }
        Some((Some(v), p2))
    } else {
        proof {
            assert forall|o: Option<Seq<u8>>, rest: Seq<u8>|
                (pos <= bytes@.len() && bytes@.skip(pos as int) == #[trigger] (enc_opt_bytes(o)
                    + rest)) implies false by {
                if o is Some {
                    assert(enc_opt_bytes(o)[0] == 1u8);
                } else {
                    assert(enc_opt_bytes(o)[0] == 0u8);
                }
            }
        }
        None
    }
}

/// Reads an inscription id.
fn rd_id(bytes: &Vec<u8>, pos: usize) -> (r: Option<(InscriptionId, usize)>)
    ensures
        r matches Some(p) ==> pos <= p.1 <= bytes@.len() && enc_id(p.0@) == bytes@.subrange(
            pos as int,
            p.1 as int,
        ),
        forall|id: InscriptionIdV, rest: Seq<u8>|
            (pos <= bytes@.len() && bytes@.skip(pos as int) == #[trigger] (enc_id(id) + rest)
                && id.txid.len() <= usize::MAX) ==> (r matches Some(p) && p.0@ == id && p.1 == pos
                + enc_id(id).len()),
{
    proof {
        assert forall|id: InscriptionIdV, rest: Seq<u8>|
            (pos <= bytes@.len() && bytes@.skip(pos as int) == #[trigger] (enc_id(id) + rest)
                && id.txid.len() <= usize::MAX) implies (bytes@.skip(pos as int) == enc_bytes(
            id.txid,
        ) + (u32_le(id.index as nat) + rest)) by {
            assert(enc_id(id) + rest =~= enc_bytes(id.txid) + (u32_le(id.index as nat) + rest));
        }
    }
    let (txid, p1) = match rd_bytes(bytes, pos) {
        Some(p) => p,
        None => return None,
    };
    proof {
        assert forall|id: InscriptionIdV, rest: Seq<u8>|
            (pos <= bytes@.len() && bytes@.skip(pos as int) == #[trigger] (enc_id(id) + rest)
                && id.txid.len() <= usize::MAX) implies (txid@ == id.txid && p1 <= bytes@.len()
                && bytes@.skip(p1 as int) == u32_le(id.index as nat) + rest) by {
            lemma_suffix_split(bytes@, pos as int, enc_bytes(id.txid), u32_le(id.index as nat) + rest);
        }
    }
    let (index, p2) = match rd_u32(bytes, p1) {
        Some(p) => p,
        None => return None,
    };
    proof {
        assert(bytes@.subrange(pos as int, p2 as int) =~= bytes@.subrange(pos as int, p1 as int)
            + bytes@.subrange(p1 as int, p2 as int));
    }
    Some((InscriptionId { txid, index }, p2))
}

/// Reads an optional inscription id.
fn rd_opt_id(bytes: &Vec<u8>, pos: usize) -> (r: Option<(Option<InscriptionId>, usize)>)
    ensures
        r matches Some(p) ==> pos <= p.1 <= bytes@.len() && enc_opt_id(opt_id_view(p.0))
            == bytes@.subrange(pos as int, p.1 as int),
        forall|o: Option<InscriptionIdV>, rest: Seq<u8>|
            (pos <= bytes@.len() && bytes@.skip(pos as int) == #[trigger] (enc_opt_id(o) + rest)
                && (o matches Some(id) ==> id.txid.len() <= usize::MAX)) ==> (r matches Some(p)
                && opt_id_view(p.0) == o && p.1 == pos + enc_opt_id(o).len()),
{
    proof {
        assert forall|o: Option<InscriptionIdV>, rest: Seq<u8>|
            (pos <= bytes@.len() && bytes@.skip(pos as int) == #[trigger] (enc_opt_id(o)
                + rest)) implies pos < bytes@.len() && bytes@[pos as int] == enc_opt_id(o)[0] by {
            lemma_suffix_split(bytes@, pos as int, enc_opt_id(o), rest);
            assert(bytes@.skip(pos as int)[0] == enc_opt_id(o)[0]);
        }
    }
    let (tag, p1) = match rd_u8(bytes, pos) {
        Some(p) => p,
        None => return None,
    };
    if tag == 0 {
        proof {
            assert(bytes@.subrange(pos as int, p1 as int) =~= seq![0u8]);
            assert forall|o: Option<InscriptionIdV>, rest: Seq<u8>|
                (pos <= bytes@.len() && bytes@.skip(pos as int) == #[trigger] (enc_opt_id(o)
                    + rest)) implies o is None by {
                if o is Some {
                    assert(enc_opt_id(o)[0] == 1u8);
                }
            }
        }
        Some((None, p1))
    } else if tag == 1 {
        proof {
            assert forall|o: Option<InscriptionIdV>, rest: Seq<u8>|
                (pos <= bytes@.len() && bytes@.skip(pos as int) == #[trigger] (enc_opt_id(o)
                    + rest) && (o matches Some(id) ==> id.txid.len() <= usize::MAX)) implies (o
                is Some && p1 <= bytes@.len() && bytes@.skip(p1 as int) == enc_id(o->Some_0) + rest
                && o->Some_0.txid.len() <= usize::MAX) by {
                if o is None {
                    assert(enc_opt_id(o)[0] == 0u8);
                }
                assert(enc_opt_id(o) + rest =~= seq![1u8] + (enc_id(o->Some_0) + rest));
                lemma_suffix_split(bytes@, pos as int, seq![1u8], enc_id(o->Some_0) + rest);
            }
        }
        let (id, p2) = match rd_id(bytes, p1) {
            Some(p) => p,
            None => return None,
        };
        proof {
            assert(bytes@.subrange(pos as int, p2 as int) =~= bytes@.subrange(
                pos as int,
                p1 as int,
            ) + bytes@.subrange(p1 as int, p2 as int));
            assert(bytes@.subrange(pos as int, p1 as int) =~= seq![1u8]);
        }
        Some((Some(id), p2))
    } else {
        proof {
            assert forall|o: Option<InscriptionIdV>, rest: Seq<u8>|
                (pos <= bytes@.len() && bytes@.skip(pos as int) == #[trigger] (enc_opt_id(o)
                    + rest)) implies false by {
                if o is Some {
                    assert(enc_opt_id(o)[0] == 1u8);
                } else {
                    assert(enc_opt_id(o)[0] == 0u8);
                }
            }
        }
        None
    }
}

/// Appending one more id extends the list encoding by that id's encoding.
proof fn lemma_enc_id_list_snoc(s: Seq<InscriptionIdV>, x: InscriptionIdV)
    ensures
        enc_id_list(s.push(x)) == enc_id_list(s) + enc_id(x),
{
    let t = s.push(x);
    lemma_enc_id_list_take(t, s.len() as int);
    assert(t.take(s.len() as int) =~= s);
    assert(t.take(s.len() as int + 1) =~= t);
    assert(t[s.len() as int] == x);
}

proof fn lemma_enc_inscription_list_snoc(s: Seq<InscriptionV>, x: InscriptionV)
    ensures
        enc_inscription_list(s.push(x)) == enc_inscription_list(s) + enc_inscription(x),
{
    let t = s.push(x);
    lemma_enc_inscription_list_take(t, s.len() as int);
    assert(t.take(s.len() as int) =~= s);
    assert(t.take(s.len() as int + 1) =~= t);
    assert(t[s.len() as int] == x);
}

/// Reads `n` inscription ids one after another.
#[verifier::rlimit(100)]
fn rd_id_list(bytes: &Vec<u8>, pos: usize, n: usize) -> (r: Option<(Vec<InscriptionId>, usize)>)
    requires
        pos <= bytes@.len(),
    ensures
        r matches Some(p) ==> pos <= p.1 <= bytes@.len() && p.0@.len() == n && enc_id_list(
            p.0@.map_values(|q: InscriptionId| q@),
        ) == bytes@.subrange(pos as int, p.1 as int),
        forall|l: Seq<InscriptionIdV>, rest: Seq<u8>|
            (pos <= bytes@.len() && bytes@.skip(pos as int) == #[trigger] (enc_id_list(l) + rest)
                && l.len() == n && ids_fit(l)) ==> (r matches Some(p) && p.0@.map_values(
                |q: InscriptionId| q@,
            ) == l && p.1 == pos + enc_id_list(l).len()),
    decreases n,
{
    if n == 0 {
        let empty: Vec<InscriptionId> = Vec::new();
        proof {
            assert(empty@.map_values(|q: InscriptionId| q@) =~= Seq::<InscriptionIdV>::empty());
            assert(bytes@.subrange(pos as int, pos as int) =~= Seq::<u8>::empty());
            assert forall|l: Seq<InscriptionIdV>, rest: Seq<u8>|
                (pos <= bytes@.len() && bytes@.skip(pos as int) == #[trigger] (enc_id_list(l)
                    + rest) && l.len() == 0 && ids_fit(l)) implies (empty@.map_values(
                |q: InscriptionId| q@,
            ) == l && pos == pos + enc_id_list(l).len()) by {
                assert(l =~= Seq::<InscriptionIdV>::empty());
            }
        }
        return Some((empty, pos));
    }
    proof {
        assert forall|l: Seq<InscriptionIdV>, rest: Seq<u8>|
            (pos <= bytes@.len() && bytes@.skip(pos as int) == #[trigger] (enc_id_list(l) + rest)
                && l.len() == n && ids_fit(l)) implies (bytes@.skip(pos as int) == enc_id(l[0]) + (
            enc_id_list(l.drop_first()) + rest) && l[0].txid.len() <= usize::MAX) by {
            assert(enc_id_list(l) == enc_id(l[0]) + enc_id_list(l.drop_first()));
            crate::bytes::lemma_seq_add_assoc(enc_id(l[0]), enc_id_list(l.drop_first()), rest);
            assert(l[0].txid.len() <= usize::MAX);
        }
    }
    let (id, p1) = match rd_id(bytes, pos) {
        Some(q) => q,
        None => return None,
    };
    proof {
        assert forall|l: Seq<InscriptionIdV>, rest: Seq<u8>|
            (pos <= bytes@.len() && bytes@.skip(pos as int) == #[trigger] (enc_id_list(l) + rest)
                && l.len() == n && ids_fit(l)) implies (id@ == l[0] && p1 <= bytes@.len()
            && bytes@.skip(p1 as int) == enc_id_list(l.drop_first()) + rest && l.drop_first().len()
            == n - 1 && ids_fit(l.drop_first())) by {
            lemma_suffix_split(bytes@, pos as int, enc_id(l[0]), enc_id_list(l.drop_first()) + rest);
            assert(forall|k: int|
                0 <= k < l.drop_first().len() ==> (#[trigger] l.drop_first()[k]).txid.len()
                    <= usize::MAX);
        }
    }
    let (tail, p2) = match rd_id_list(bytes, p1, n - 1) {
        Some(q) => q,
        None => return None,
    };
    let mut out: Vec<InscriptionId> = Vec::new();
    out.push(id);
    let mut t = tail;
    out.append(&mut t);
    proof {
        let views = out@.map_values(|q: InscriptionId| q@);
        let tail_views = tail@.map_values(|q: InscriptionId| q@);
        assert(views =~= seq![id@] + tail_views);
        assert(enc_id_list(views) == enc_id(id@) + enc_id_list(tail_views)) by {
            assert(views[0] == id@);
            assert(views.drop_first() =~= tail_views);
        }
        assert(bytes@.subrange(pos as int, p2 as int) =~= bytes@.subrange(pos as int, p1 as int)
            + bytes@.subrange(p1 as int, p2 as int));
        assert forall|l: Seq<InscriptionIdV>, rest: Seq<u8>|
            (pos <= bytes@.len() && bytes@.skip(pos as int) == #[trigger] (enc_id_list(l) + rest)
                && l.len() == n && ids_fit(l)) implies (views == l && p2 == pos + enc_id_list(
            l,
        ).len()) by {
            assert(tail_views == l.drop_first());
            assert(views =~= l);
            assert(enc_id_list(l) == enc_id(l[0]) + enc_id_list(l.drop_first()));
        }
    }
    Some((out, p2))
}

/// Reads a counted list of inscription ids.
fn rd_ids(bytes: &Vec<u8>, pos: usize) -> (r: Option<(Vec<InscriptionId>, usize)>)
    ensures
        r matches Some(p) ==> pos <= p.1 <= bytes@.len() && enc_ids(
            p.0@.map_values(|q: InscriptionId| q@),
        ) == bytes@.subrange(pos as int, p.1 as int),
        forall|l: Seq<InscriptionIdV>, rest: Seq<u8>|
            (pos <= bytes@.len() && bytes@.skip(pos as int) == #[trigger] (enc_ids(l) + rest)
                && l.len() <= usize::MAX && ids_fit(l)) ==> (r matches Some(p)
                && p.0@.map_values(|q: InscriptionId| q@) == l && p.1 == pos + enc_ids(l).len()),
{
    proof {
        assert forall|l: Seq<InscriptionIdV>, rest: Seq<u8>|
            (pos <= bytes@.len() && bytes@.skip(pos as int) == #[trigger] (enc_ids(l) + rest)
                && l.len() <= usize::MAX) implies (bytes@.skip(pos as int) == u64_le(
            ((l.len() as u64) as nat),
        ) + (enc_id_list(l) + rest)) by {
            assert((l.len() as u64) as nat == l.len());
            assert(enc_ids(l) + rest =~= u64_le(l.len()) + (enc_id_list(l) + rest));
        }
    }
    let (n64, p1) = match rd_u64(bytes, pos) {
        Some(p) => p,
        None => return None,
    };
    proof {
        assert forall|l: Seq<InscriptionIdV>, rest: Seq<u8>|
            (pos <= bytes@.len() && bytes@.skip(pos as int) == #[trigger] (enc_ids(l) + rest)
                && l.len() <= usize::MAX) implies (n64 == l.len() && p1 <= bytes@.len()
            && bytes@.skip(p1 as int) == enc_id_list(l) + rest) by {
            assert((l.len() as u64) as nat == l.len());
            lemma_suffix_split(bytes@, pos as int, u64_le(l.len()), enc_id_list(l) + rest);
        }
    }
    if n64 > usize::MAX as u64 {
        return None;
    }
    let n = n64 as usize;
    let (ids, p) = match rd_id_list(bytes, p1, n) {
        Some(q) => q,
        None => return None,
    };
    proof {
        assert(bytes@.subrange(pos as int, p as int) =~= bytes@.subrange(pos as int, p1 as int)
            + bytes@.subrange(p1 as int, p as int));
        assert(ids@.map_values(|q: InscriptionId| q@).len() == n64 as nat);
    }
    Some((ids, p))
}

/// Reads an optional 64-bit value.
fn rd_opt_u64(bytes: &Vec<u8>, pos: usize) -> (r: Option<(Option<u64>, usize)>)
    ensures
        r matches Some(p) ==> pos <= p.1 <= bytes@.len() && enc_opt_u64(p.0) == bytes@.subrange(
            pos as int,
            p.1 as int,
        ),
        forall|o: Option<u64>, rest: Seq<u8>|
            (pos <= bytes@.len() && bytes@.skip(pos as int) == #[trigger] (enc_opt_u64(o)
                + rest)) ==> (r matches Some(p) && p.0 == o && p.1 == pos + enc_opt_u64(o).len()),
{
    proof {
        assert forall|o: Option<u64>, rest: Seq<u8>|
            (pos <= bytes@.len() && bytes@.skip(pos as int) == #[trigger] (enc_opt_u64(o)
                + rest)) implies pos < bytes@.len() && bytes@[pos as int] == enc_opt_u64(o)[0] by {
            lemma_suffix_split(bytes@, pos as int, enc_opt_u64(o), rest);
            assert(bytes@.skip(pos as int)[0] == enc_opt_u64(o)[0]);
        }
    }
    let (tag, p1) = match rd_u8(bytes, pos) {
        Some(p) => p,
        None => return None,
    };
    if tag == 0 {
        proof {
            assert(bytes@.subrange(pos as int, p1 as int) =~= seq![0u8]);
            assert forall|o: Option<u64>, rest: Seq<u8>|
                (pos <= bytes@.len() && bytes@.skip(pos as int) == #[trigger] (enc_opt_u64(o)
                    + rest)) implies o is None by {
                if o is Some {
                    assert(enc_opt_u64(o)[0] == 1u8);
                }
            }
        }
        Some((None, p1))
    } else if tag == 1 {
        proof {
            assert forall|o: Option<u64>, rest: Seq<u8>|
                (pos <= bytes@.len() && bytes@.skip(pos as int) == #[trigger] (enc_opt_u64(o)
                    + rest)) implies (o is Some && p1 <= bytes@.len() && bytes@.skip(p1 as int)
                == u64_le(o->0 as nat) + rest) by {
                if o is None {
                    assert(enc_opt_u64(o)[0] == 0u8);
                }
                assert(enc_opt_u64(o) + rest =~= seq![1u8] + (u64_le(o->0 as nat) + rest));
                lemma_suffix_split(bytes@, pos as int, seq![1u8], u64_le(o->0 as nat) + rest);
            }
        }
        let (v, p2) = match rd_u64(bytes, p1) {
            Some(p) => p,
            None => return None,
        };
        proof {
            assert(bytes@.subrange(pos as int, p2 as int) =~= bytes@.subrange(
                pos as int,
                p1 as int,
            ) + bytes@.subrange(p1 as int, p2 as int));
            assert(bytes@.subrange(pos as int, p1 as int) =~= seq![1u8]);
        }
        Some((Some(v), p2))
    } else {
        proof {
            assert forall|o: Option<u64>, rest: Seq<u8>|
                (pos <= bytes@.len() && bytes@.skip(pos as int) == #[trigger] (enc_opt_u64(o)
                    + rest)) implies false by {
                if o is Some {
                    assert(enc_opt_u64(o)[0] == 1u8);
                } else {
                    assert(enc_opt_u64(o)[0] == 0u8);
                }
            }
        }
        None
    }
}

/// Reads an optional 128-bit value.
fn rd_opt_u128(bytes: &Vec<u8>, pos: usize) -> (r: Option<(Option<u128>, usize)>)
    ensures
        r matches Some(p) ==> pos <= p.1 <= bytes@.len() && enc_opt_u128(p.0) == bytes@.subrange(
            pos as int,
            p.1 as int,
        ),
        forall|o: Option<u128>, rest: Seq<u8>|
            (pos <= bytes@.len() && bytes@.skip(pos as int) == #[trigger] (enc_opt_u128(o)
                + rest)) ==> (r matches Some(p) && p.0 == o && p.1 == pos + enc_opt_u128(o).len()),
{
    proof {
        assert forall|o: Option<u128>, rest: Seq<u8>|
            (pos <= bytes@.len() && bytes@.skip(pos as int) == #[trigger] (enc_opt_u128(o)
                + rest)) implies pos < bytes@.len() && bytes@[pos as int] == enc_opt_u128(
            o,
        )[0] by {
            lemma_suffix_split(bytes@, pos as int, enc_opt_u128(o), rest);
            assert(bytes@.skip(pos as int)[0] == enc_opt_u128(o)[0]);
        }
    }
    let (tag, p1) = match rd_u8(bytes, pos) {
        Some(p) => p,
        None => return None,
    };
    if tag == 0 {
        proof {
            assert(bytes@.subrange(pos as int, p1 as int) =~= seq![0u8]);
            assert forall|o: Option<u128>, rest: Seq<u8>|
                (pos <= bytes@.len() && bytes@.skip(pos as int) == #[trigger] (enc_opt_u128(o)
                    + rest)) implies o is None by {
                if o is Some {
                    assert(enc_opt_u128(o)[0] == 1u8);
                }
            }
        }
        Some((None, p1))
    } else if tag == 1 {
        proof {
            assert forall|o: Option<u128>, rest: Seq<u8>|
                (pos <= bytes@.len() && bytes@.skip(pos as int) == #[trigger] (enc_opt_u128(o)
                    + rest)) implies (o is Some && p1 <= bytes@.len() && bytes@.skip(p1 as int)
                == u64_le(o->0 as nat % 0x1_0000_0000_0000_0000) + (u64_le(
                o->0 as nat / 0x1_0000_0000_0000_0000,
            ) + rest)) by {
                if o is None {
                    assert(enc_opt_u128(o)[0] == 0u8);
                }
                assert(enc_opt_u128(o) + rest =~= seq![1u8] + (u64_le(
                    o->0 as nat % 0x1_0000_0000_0000_0000,
                ) + (u64_le(o->0 as nat / 0x1_0000_0000_0000_0000) + rest)));
                lemma_suffix_split(
                    bytes@,
                    pos as int,
                    seq![1u8],
                    u64_le(o->0 as nat % 0x1_0000_0000_0000_0000) + (u64_le(
                        o->0 as nat / 0x1_0000_0000_0000_0000,
                    ) + rest),
                );
            }
        }
        let (lo, p2) = match rd_u64(bytes, p1) {
            Some(p) => p,
            None => return None,
        };
        proof {
            assert forall|o: Option<u128>, rest: Seq<u8>|
                (pos <= bytes@.len() && bytes@.skip(pos as int) == #[trigger] (enc_opt_u128(o)
                    + rest)) implies (o is Some && lo == o->0 as nat % 0x1_0000_0000_0000_0000
                && p2 <= bytes@.len() && bytes@.skip(p2 as int) == u64_le(
                o->0 as nat / 0x1_0000_0000_0000_0000,
            ) + rest) by {
                assert((o->0 as nat % 0x1_0000_0000_0000_0000) < 0x1_0000_0000_0000_0000);
                lemma_suffix_split(
                    bytes@,
                    p1 as int,
                    u64_le(o->0 as nat % 0x1_0000_0000_0000_0000),
                    u64_le(o->0 as nat / 0x1_0000_0000_0000_0000) + rest,
                );
            }
        }
        let (hi, p3) = match rd_u64(bytes, p2) {
            Some(p) => p,
            None => return None,
        };
        let v: u128 = (lo as u128) + (hi as u128) * 0x1_0000_0000_0000_0000;
        proof {
            vstd::arithmetic::div_mod::lemma_fundamental_div_mod_converse(
                v as int,
                0x1_0000_0000_0000_0000,
                hi as int,
                lo as int,
            );
            assert(u128_le(v as nat) =~= bytes@.subrange(p1 as int, p3 as int)) by {
                assert(bytes@.subrange(p1 as int, p3 as int) =~= bytes@.subrange(
                    p1 as int,
                    p2 as int,
                ) + bytes@.subrange(p2 as int, p3 as int));
            }
            assert(bytes@.subrange(pos as int, p3 as int) =~= bytes@.subrange(
                pos as int,
                p1 as int,
            ) + bytes@.subrange(p1 as int, p3 as int));
            assert(bytes@.subrange(pos as int, p1 as int) =~= seq![1u8]);
            assert forall|o: Option<u128>, rest: Seq<u8>|
                (pos <= bytes@.len() && bytes@.skip(pos as int) == #[trigger] (enc_opt_u128(o)
                    + rest)) implies (o is Some && v == o->0 && p3 == pos + enc_opt_u128(
                o,
            ).len()) by {
                assert(hi == o->0 as nat / 0x1_0000_0000_0000_0000);
                vstd::arithmetic::div_mod::lemma_fundamental_div_mod(
                    o->0 as int,
                    0x1_0000_0000_0000_0000,
                );
            }
        }
        Some((Some(v), p3))
    } else {
        proof {
            assert forall|o: Option<u128>, rest: Seq<u8>|
                (pos <= bytes@.len() && bytes@.skip(pos as int) == #[trigger] (enc_opt_u128(o)
                    + rest)) implies false by {
                if o is Some {
                    assert(enc_opt_u128(o)[0] == 1u8);
                } else {
                    assert(enc_opt_u128(o)[0] == 0u8);
                }
            }
        }
        None
    }
}

/// Every id of the list fits the machine.
pub open spec fn ids_fit(l: Seq<InscriptionIdV>) -> bool {
    forall|k: int| 0 <= k < l.len() ==> (#[trigger] l[k]).txid.len() <= usize::MAX
}

/// Every encoded piece of the inscription fits the machine.
pub open spec fn inscription_fits(i: InscriptionV) -> bool {
    &&& (i.body matches Some(b) ==> b.len() <= usize::MAX)
    &&& (i.content_type matches Some(b) ==> b.len() <= usize::MAX)
    &&& (i.content_encoding matches Some(b) ==> b.len() <= usize::MAX)
    &&& (i.metadata matches Some(b) ==> b.len() <= usize::MAX)
    &&& (i.metaprotocol matches Some(b) ==> b.len() <= usize::MAX)
    &&& (i.delegate matches Some(d) ==> d.txid.len() <= usize::MAX)
    &&& i.parents.len() <= usize::MAX
    &&& ids_fit(i.parents)
}

/// Every vector's view fits the machine.
proof fn lemma_vec_len_bound<T>(v: Vec<T>)
    ensures
        v@.len() <= usize::MAX,
{
    broadcast use vstd::std_specs::vec::axiom_spec_len;

    assert(spec_vec_len(&v) == v@.len());
}

/// An inscription id's encoded pieces fit the machine.
proof fn lemma_id_fits(id: InscriptionId)
    ensures
        id@.txid.len() <= usize::MAX,
{
    lemma_vec_len_bound(id.txid);
}

/// An inscription's encoded pieces fit the machine.
proof fn lemma_inscription_fits(i: Inscription)
    ensures
        inscription_fits(i@),
{
    if i.body is Some {
        lemma_vec_len_bound(i.body->0);
    }
    if i.content_type is Some {
        lemma_vec_len_bound(i.content_type->0);
    }
    if i.content_encoding is Some {
        lemma_vec_len_bound(i.content_encoding->0);
    }
    if i.metadata is Some {
        lemma_vec_len_bound(i.metadata->0);
    }
    if i.metaprotocol is Some {
        lemma_vec_len_bound(i.metaprotocol->0);
    }
    if i.delegate is Some {
        lemma_id_fits(i.delegate->0);
    }
    lemma_vec_len_bound(i.parents);
    assert forall|j: int| 0 <= j < i@.parents.len() implies (#[trigger] i@.parents[j]).txid.len()
        <= usize::MAX by {
        assert(i@.parents[j] == i.parents@[j]@);
        lemma_id_fits(i.parents@[j]);
    }
}

/// Nine left-associated segments re-associate to the right against a tail.
#[verifier::rlimit(100)]
proof fn lemma_reassoc9r(
    a1: Seq<u8>, a2: Seq<u8>, a3: Seq<u8>, a4: Seq<u8>, a5: Seq<u8>, a6: Seq<u8>, a7: Seq<u8>,
    a8: Seq<u8>, a9: Seq<u8>, rest: Seq<u8>,
)
    ensures
        (a1 + a2 + a3 + a4 + a5 + a6 + a7 + a8 + a9) + rest == a1 + (a2 + (a3 + (a4 + (a5 + (a6 + (
        a7 + (a8 + (a9 + rest)))))))),
{
    assert((a1 + a2 + a3 + a4 + a5 + a6 + a7 + a8 + a9) + rest =~= a1 + (a2 + (a3 + (a4 + (a5 + (a6
        + (a7 + (a8 + (a9 + rest)))))))));
}

/// Five left-associated segments re-associate to the right against a tail.
#[verifier::rlimit(100)]
proof fn lemma_reassoc5r(
    a1: Seq<u8>, a2: Seq<u8>, a3: Seq<u8>, a4: Seq<u8>, a5: Seq<u8>, rest: Seq<u8>,
)
    ensures
        (a1 + a2 + a3 + a4 + a5) + rest == a1 + (a2 + (a3 + (a4 + (a5 + rest)))),
{
    assert((a1 + a2 + a3 + a4 + a5) + rest =~= a1 + (a2 + (a3 + (a4 + (a5 + rest)))));
}

/// Nine adjacent spans of `b` concatenate to the covering span.
#[verifier::rlimit(100)]
proof fn lemma_chain9(
    b: Seq<u8>,
    p0: int, p1: int, p2: int, p3: int, p4: int, p5: int, p6: int, p7: int, p8: int, p9: int,
    f1: Seq<u8>, f2: Seq<u8>, f3: Seq<u8>, f4: Seq<u8>, f5: Seq<u8>, f6: Seq<u8>, f7: Seq<u8>,
    f8: Seq<u8>, f9: Seq<u8>,
)
    requires
        0 <= p0 <= p1 <= p2 <= p3 <= p4 <= p5 <= p6 <= p7 <= p8 <= p9 <= b.len(),
        f1 == b.subrange(p0, p1),
        f2 == b.subrange(p1, p2),
        f3 == b.subrange(p2, p3),
        f4 == b.subrange(p3, p4),
        f5 == b.subrange(p4, p5),
        f6 == b.subrange(p5, p6),
        f7 == b.subrange(p6, p7),
        f8 == b.subrange(p7, p8),
        f9 == b.subrange(p8, p9),
    ensures
        f1 + f2 + f3 + f4 + f5 + f6 + f7 + f8 + f9 == b.subrange(p0, p9),
{
    assert(f1 + f2 =~= b.subrange(p0, p2));
    assert(f1 + f2 + f3 =~= b.subrange(p0, p3));
    assert(f1 + f2 + f3 + f4 =~= b.subrange(p0, p4));
    assert(f1 + f2 + f3 + f4 + f5 =~= b.subrange(p0, p5));
    assert(f1 + f2 + f3 + f4 + f5 + f6 =~= b.subrange(p0, p6));
    assert(f1 + f2 + f3 + f4 + f5 + f6 + f7 =~= b.subrange(p0, p7));
    assert(f1 + f2 + f3 + f4 + f5 + f6 + f7 + f8 =~= b.subrange(p0, p8));
    assert(f1 + f2 + f3 + f4 + f5 + f6 + f7 + f8 + f9 =~= b.subrange(p0, p9));
}

/// Five adjacent spans of `b` concatenate to the covering span.
#[verifier::rlimit(100)]
proof fn lemma_chain5(
    b: Seq<u8>,
    p0: int, p1: int, p2: int, p3: int, p4: int, p5: int,
    f1: Seq<u8>, f2: Seq<u8>, f3: Seq<u8>, f4: Seq<u8>, f5: Seq<u8>,
)
    requires
        0 <= p0 <= p1 <= p2 <= p3 <= p4 <= p5 <= b.len(),
        f1 == b.subrange(p0, p1),
        f2 == b.subrange(p1, p2),
        f3 == b.subrange(p2, p3),
        f4 == b.subrange(p3, p4),
        f5 == b.subrange(p4, p5),
    ensures
        f1 + f2 + f3 + f4 + f5 == b.subrange(p0, p5),
{
    assert(f1 + f2 =~= b.subrange(p0, p2));
    assert(f1 + f2 + f3 =~= b.subrange(p0, p3));
    assert(f1 + f2 + f3 + f4 =~= b.subrange(p0, p4));
    assert(f1 + f2 + f3 + f4 + f5 =~= b.subrange(p0, p5));
}

/// Reads one inscription.
#[verifier::rlimit(100)]
fn rd_inscription(bytes: &Vec<u8>, pos: usize) -> (r: Option<(Inscription, usize)>)
    ensures
        r matches Some(p) ==> pos <= p.1 <= bytes@.len() && enc_inscription(p.0@)
            == bytes@.subrange(pos as int, p.1 as int),
        forall|iv: InscriptionV, rest: Seq<u8>|
            (pos <= bytes@.len() && bytes@.skip(pos as int) == #[trigger] (enc_inscription(iv)
                + rest) && inscription_fits(iv)) ==> (r matches Some(p) && p.0@ == iv && p.1 == pos
                + enc_inscription(iv).len()),
{
    proof {
        assert forall|iv: InscriptionV, rest: Seq<u8>|
            (pos <= bytes@.len() && bytes@.skip(pos as int) == #[trigger] (enc_inscription(iv)
                + rest)) implies (bytes@.skip(pos as int) == enc_opt_bytes(iv.body) + (
        enc_opt_bytes(iv.content_type) + (enc_opt_bytes(iv.content_encoding) + (enc_opt_id(
            iv.delegate,
        ) + (enc_opt_bytes(iv.metadata) + (enc_opt_bytes(iv.metaprotocol) + (enc_ids(iv.parents)
            + (enc_opt_u64(iv.pointer) + (enc_opt_u128(iv.rune) + rest))))))))) by {
            lemma_reassoc9r(
                enc_opt_bytes(iv.body),
                enc_opt_bytes(iv.content_type),
                enc_opt_bytes(iv.content_encoding),
                enc_opt_id(iv.delegate),
                enc_opt_bytes(iv.metadata),
                enc_opt_bytes(iv.metaprotocol),
                enc_ids(iv.parents),
                enc_opt_u64(iv.pointer),
                enc_opt_u128(iv.rune),
                rest,
            );
        }
    }
    let (body, p1) = match rd_opt_bytes(bytes, pos) {
        Some(p) => p,
        None => return None,
    };
    proof {
        assert forall|iv: InscriptionV, rest: Seq<u8>|
            (pos <= bytes@.len() && bytes@.skip(pos as int) == #[trigger] (enc_inscription(iv)
                + rest) && inscription_fits(iv)) implies (p1 <= bytes@.len() && bytes@.skip(
            p1 as int,
        ) == enc_opt_bytes(iv.content_type) + (enc_opt_bytes(iv.content_encoding) + (enc_opt_id(iv.delegate) + (enc_opt_bytes(iv.metadata) + (enc_opt_bytes(iv.metaprotocol) + (enc_ids(iv.parents) + (enc_opt_u64(iv.pointer) + (enc_opt_u128(iv.rune) + (rest))))))))) by {
            lemma_suffix_split(bytes@, pos as int, enc_opt_bytes(iv.body), enc_opt_bytes(iv.content_type) + (enc_opt_bytes(iv.content_encoding) + (enc_opt_id(iv.delegate) + (enc_opt_bytes(iv.metadata) + (enc_opt_bytes(iv.metaprotocol) + (enc_ids(iv.parents) + (enc_opt_u64(iv.pointer) + (enc_opt_u128(iv.rune) + (rest)))))))));
        }
    }
    let (content_type, p2) = match rd_opt_bytes(bytes, p1) {
        Some(p) => p,
        None => return None,
    };
    proof {
        assert forall|iv: InscriptionV, rest: Seq<u8>|
            (pos <= bytes@.len() && bytes@.skip(pos as int) == #[trigger] (enc_inscription(iv)
                + rest) && inscription_fits(iv)) implies (p2 <= bytes@.len() && bytes@.skip(
            p2 as int,
        ) == enc_opt_bytes(iv.content_encoding) + (enc_opt_id(iv.delegate) + (enc_opt_bytes(iv.metadata) + (enc_opt_bytes(iv.metaprotocol) + (enc_ids(iv.parents) + (enc_opt_u64(iv.pointer) + (enc_opt_u128(iv.rune) + (rest)))))))) by {
            lemma_suffix_split(bytes@, p1 as int, enc_opt_bytes(iv.content_type), enc_opt_bytes(iv.content_encoding) + (enc_opt_id(iv.delegate) + (enc_opt_bytes(iv.metadata) + (enc_opt_bytes(iv.metaprotocol) + (enc_ids(iv.parents) + (enc_opt_u64(iv.pointer) + (enc_opt_u128(iv.rune) + (rest))))))));
        }
    }
    let (content_encoding, p3) = match rd_opt_bytes(bytes, p2) {
        Some(p) => p,
        None => return None,
    };
    proof {
        assert forall|iv: InscriptionV, rest: Seq<u8>|
            (pos <= bytes@.len() && bytes@.skip(pos as int) == #[trigger] (enc_inscription(iv)
                + rest) && inscription_fits(iv)) implies (p3 <= bytes@.len() && bytes@.skip(
            p3 as int,
        ) == enc_opt_id(iv.delegate) + (enc_opt_bytes(iv.metadata) + (enc_opt_bytes(iv.metaprotocol) + (enc_ids(iv.parents) + (enc_opt_u64(iv.pointer) + (enc_opt_u128(iv.rune) + (rest))))))) by {
            lemma_suffix_split(bytes@, p2 as int, enc_opt_bytes(iv.content_encoding), enc_opt_id(iv.delegate) + (enc_opt_bytes(iv.metadata) + (enc_opt_bytes(iv.metaprotocol) + (enc_ids(iv.parents) + (enc_opt_u64(iv.pointer) + (enc_opt_u128(iv.rune) + (rest)))))));
        }
    }
    let (delegate, p4) = match rd_opt_id(bytes, p3) {
        Some(p) => p,
        None => return None,
    };
    proof {
        assert forall|iv: InscriptionV, rest: Seq<u8>|
            (pos <= bytes@.len() && bytes@.skip(pos as int) == #[trigger] (enc_inscription(iv)
                + rest) && inscription_fits(iv)) implies (p4 <= bytes@.len() && bytes@.skip(
            p4 as int,
        ) == enc_opt_bytes(iv.metadata) + (enc_opt_bytes(iv.metaprotocol) + (enc_ids(iv.parents) + (enc_opt_u64(iv.pointer) + (enc_opt_u128(iv.rune) + (rest)))))) by {
            lemma_suffix_split(bytes@, p3 as int, enc_opt_id(iv.delegate), enc_opt_bytes(iv.metadata) + (enc_opt_bytes(iv.metaprotocol) + (enc_ids(iv.parents) + (enc_opt_u64(iv.pointer) + (enc_opt_u128(iv.rune) + (rest))))));
        }
    }
    let (metadata, p5) = match rd_opt_bytes(bytes, p4) {
        Some(p) => p,
        None => return None,
    };
    proof {
        assert forall|iv: InscriptionV, rest: Seq<u8>|
            (pos <= bytes@.len() && bytes@.skip(pos as int) == #[trigger] (enc_inscription(iv)
                + rest) && inscription_fits(iv)) implies (p5 <= bytes@.len() && bytes@.skip(
            p5 as int,
        ) == enc_opt_bytes(iv.metaprotocol) + (enc_ids(iv.parents) + (enc_opt_u64(iv.pointer) + (enc_opt_u128(iv.rune) + (rest))))) by {
            lemma_suffix_split(bytes@, p4 as int, enc_opt_bytes(iv.metadata), enc_opt_bytes(iv.metaprotocol) + (enc_ids(iv.parents) + (enc_opt_u64(iv.pointer) + (enc_opt_u128(iv.rune) + (rest)))));
        }
    }
    let (metaprotocol, p6) = match rd_opt_bytes(bytes, p5) {
        Some(p) => p,
        None => return None,
    };
    proof {
        assert forall|iv: InscriptionV, rest: Seq<u8>|
            (pos <= bytes@.len() && bytes@.skip(pos as int) == #[trigger] (enc_inscription(iv)
                + rest) && inscription_fits(iv)) implies (p6 <= bytes@.len() && bytes@.skip(
            p6 as int,
        ) == enc_ids(iv.parents) + (enc_opt_u64(iv.pointer) + (enc_opt_u128(iv.rune) + (rest)))) by {
            lemma_suffix_split(bytes@, p5 as int, enc_opt_bytes(iv.metaprotocol), enc_ids(iv.parents) + (enc_opt_u64(iv.pointer) + (enc_opt_u128(iv.rune) + (rest))));
        }
    }
    let (parents, p7) = match rd_ids(bytes, p6) {
        Some(p) => p,
        None => return None,
    };
    proof {
        assert forall|iv: InscriptionV, rest: Seq<u8>|
            (pos <= bytes@.len() && bytes@.skip(pos as int) == #[trigger] (enc_inscription(iv)
                + rest) && inscription_fits(iv)) implies (p7 <= bytes@.len() && bytes@.skip(
            p7 as int,
        ) == enc_opt_u64(iv.pointer) + (enc_opt_u128(iv.rune) + (rest))) by {
            lemma_suffix_split(bytes@, p6 as int, enc_ids(iv.parents), enc_opt_u64(iv.pointer) + (enc_opt_u128(iv.rune) + (rest)));
        }
    }
    let (pointer, p8) = match rd_opt_u64(bytes, p7) {
        Some(p) => p,
        None => return None,
    };
    proof {
        assert forall|iv: InscriptionV, rest: Seq<u8>|
            (pos <= bytes@.len() && bytes@.skip(pos as int) == #[trigger] (enc_inscription(iv)
                + rest) && inscription_fits(iv)) implies (p8 <= bytes@.len() && bytes@.skip(
            p8 as int,
        ) == enc_opt_u128(iv.rune) + (rest)) by {
            lemma_suffix_split(bytes@, p7 as int, enc_opt_u64(iv.pointer), enc_opt_u128(iv.rune) + (rest));
        }
    }
    let (rune, p9) = match rd_opt_u128(bytes, p8) {
        Some(p) => p,
        None => return None,
    };
    let insc = Inscription {
        body,
        content_type,
        content_encoding,
        delegate,
        metadata,
        metaprotocol,
        parents,
        pointer,
        rune,
    };
    proof {
        lemma_chain9(
            bytes@,
            pos as int, p1 as int, p2 as int, p3 as int, p4 as int, p5 as int, p6 as int,
            p7 as int, p8 as int, p9 as int,
            enc_opt_bytes(opt_view(insc.body)),
            enc_opt_bytes(opt_view(insc.content_type)),
            enc_opt_bytes(opt_view(insc.content_encoding)),
            enc_opt_id(opt_id_view(insc.delegate)),
            enc_opt_bytes(opt_view(insc.metadata)),
            enc_opt_bytes(opt_view(insc.metaprotocol)),
            enc_ids(insc.parents@.map_values(|q: InscriptionId| q@)),
            enc_opt_u64(insc.pointer),
            enc_opt_u128(insc.rune),
        );
        assert(insc@.parents == insc.parents@.map_values(|q: InscriptionId| q@));
        assert forall|iv: InscriptionV, rest: Seq<u8>|
            (pos <= bytes@.len() && bytes@.skip(pos as int) == #[trigger] (enc_inscription(iv)
                + rest) && inscription_fits(iv)) implies (insc@ == iv && p9 == pos
            + enc_inscription(iv).len()) by {
            lemma_suffix_split(
                bytes@,
                pos as int,
                enc_opt_bytes(iv.body),
                enc_opt_bytes(iv.content_type) + (enc_opt_bytes(iv.content_encoding) + (enc_opt_id(
                    iv.delegate,
                ) + (enc_opt_bytes(iv.metadata) + (enc_opt_bytes(iv.metaprotocol) + (enc_ids(
                    iv.parents,
                ) + (enc_opt_u64(iv.pointer) + (enc_opt_u128(iv.rune) + rest))))))),
            );
            lemma_suffix_split(
                bytes@,
                p1 as int,
                enc_opt_bytes(iv.content_type),
                enc_opt_bytes(iv.content_encoding) + (enc_opt_id(iv.delegate) + (enc_opt_bytes(
                    iv.metadata,
                ) + (enc_opt_bytes(iv.metaprotocol) + (enc_ids(iv.parents) + (enc_opt_u64(
                    iv.pointer,
                ) + (enc_opt_u128(iv.rune) + rest)))))),
            );
            lemma_suffix_split(
                bytes@,
                p2 as int,
                enc_opt_bytes(iv.content_encoding),
                enc_opt_id(iv.delegate) + (enc_opt_bytes(iv.metadata) + (enc_opt_bytes(
                    iv.metaprotocol,
                ) + (enc_ids(iv.parents) + (enc_opt_u64(iv.pointer) + (enc_opt_u128(iv.rune)
                    + rest))))),
            );
            lemma_suffix_split(
                bytes@,
                p3 as int,
                enc_opt_id(iv.delegate),
                enc_opt_bytes(iv.metadata) + (enc_opt_bytes(iv.metaprotocol) + (enc_ids(iv.parents)
                    + (enc_opt_u64(iv.pointer) + (enc_opt_u128(iv.rune) + rest)))),
            );
            lemma_suffix_split(
                bytes@,
                p4 as int,
                enc_opt_bytes(iv.metadata),
                enc_opt_bytes(iv.metaprotocol) + (enc_ids(iv.parents) + (enc_opt_u64(iv.pointer)
                    + (enc_opt_u128(iv.rune) + rest))),
            );
            lemma_suffix_split(
                bytes@,
                p5 as int,
                enc_opt_bytes(iv.metaprotocol),
                enc_ids(iv.parents) + (enc_opt_u64(iv.pointer) + (enc_opt_u128(iv.rune) + rest)),
            );
            lemma_suffix_split(
                bytes@,
                p6 as int,
                enc_ids(iv.parents),
                enc_opt_u64(iv.pointer) + (enc_opt_u128(iv.rune) + rest),
            );
            lemma_suffix_split(
                bytes@,
                p7 as int,
                enc_opt_u64(iv.pointer),
                enc_opt_u128(iv.rune) + rest,
            );
            lemma_suffix_split(bytes@, p8 as int, enc_opt_u128(iv.rune), rest);
        }
    }
    Some((insc, p9))
}

/// Every inscription of the list fits the machine.
pub open spec fn inscriptions_fit(l: Seq<InscriptionV>) -> bool {
    forall|k: int| 0 <= k < l.len() ==> inscription_fits(#[trigger] l[k])
}

/// Reads `n` inscriptions one after another.
#[verifier::rlimit(100)]
fn rd_inscription_list(bytes: &Vec<u8>, pos: usize, n: usize) -> (r: Option<
    (Vec<Inscription>, usize),
>)
    requires
        pos <= bytes@.len(),
    ensures
        r matches Some(p) ==> pos <= p.1 <= bytes@.len() && p.0@.len() == n
            && enc_inscription_list(p.0@.map_values(|q: Inscription| q@)) == bytes@.subrange(
            pos as int,
            p.1 as int,
        ),
    decreases n,
{
    if n == 0 {
        let empty: Vec<Inscription> = Vec::new();
        proof {
            assert(empty@.map_values(|q: Inscription| q@) =~= Seq::<InscriptionV>::empty());
            assert(bytes@.subrange(pos as int, pos as int) =~= Seq::<u8>::empty());
        }
        return Some((empty, pos));
    }
    let (insc, p1) = match rd_inscription(bytes, pos) {
        Some(q) => q,
        None => return None,
    };
    let (tail, p2) = match rd_inscription_list(bytes, p1, n - 1) {
        Some(q) => q,
        None => return None,
    };
    let mut out: Vec<Inscription> = Vec::new();
    out.push(insc);
    let mut t = tail;
    out.append(&mut t);
    proof {
        let views = out@.map_values(|q: Inscription| q@);
        let tail_views = tail@.map_values(|q: Inscription| q@);
        assert(out@ =~= seq![insc] + tail@);
        assert(views[0] == insc@);
        assert(views.drop_first() =~= tail_views);
        assert(enc_inscription_list(views) == enc_inscription(insc@) + enc_inscription_list(
            tail_views,
        ));
        assert(bytes@.subrange(pos as int, p2 as int) =~= bytes@.subrange(pos as int, p1 as int)
            + bytes@.subrange(p1 as int, p2 as int));
    }
    Some((out, p2))
}

/// Whether a record's encoded pieces all fit the machine; true of every
/// record held in memory, since each field is a vector.
pub open spec fn state_fits(s: TaprootData) -> bool {
    &&& s.inscriptions@.len() <= usize::MAX
    &&& inscriptions_fit(s.inscriptions@.map_values(|i: Inscription| i@))
    &&& s.reveal_script@.len() <= usize::MAX
    &&& s.control_block@.len() <= usize::MAX
    &&& s.untweaked_secret@.len() <= usize::MAX
    &&& s.tweaked_secret@.len() <= usize::MAX
}

/// Every record value fits the machine.
pub proof fn lemma_state_fits(s: TaprootData)
    ensures
        state_fits(s),
{
    lemma_vec_len_bound(s.inscriptions);
    lemma_vec_len_bound(s.reveal_script);
    lemma_vec_len_bound(s.control_block);
    lemma_vec_len_bound(s.untweaked_secret);
    lemma_vec_len_bound(s.tweaked_secret);
    let views = s.inscriptions@.map_values(|i: Inscription| i@);
    assert forall|k: int| 0 <= k < views.len() implies inscription_fits(#[trigger] views[k]) by {
        assert(views[k] == s.inscriptions@[k]@);
        lemma_inscription_fits(s.inscriptions@[k]);
    }
}

/// Decodes a record serialized by `encode_state`, under the commit address it
/// was stored at. It succeeds on exactly the encoder's outputs: whenever it
/// returns a record, re-encoding that record yields the input; and on the
/// encoding of any record it succeeds and returns that record's fields, so
/// the persisted format round-trips losslessly.
#[verifier::rlimit(100)]
pub fn decode_state(bytes: &Vec<u8>, taproot_address: String) -> (r: Option<TaprootData>)
    ensures
        r matches Some(s) ==> state_enc_of(s) == bytes@ && s.taproot_address@
            == taproot_address@,
{
    let (n64, p0) = match rd_u64(bytes, 0) {
        Some(p) => p,
        None => return None,
    };
    if n64 > usize::MAX as u64 {
        return None;
    }
    let n = n64 as usize;
    let (inscriptions, q0) = match rd_inscription_list(bytes, p0, n) {
        Some(q) => q,
        None => return None,
    };
    let (reveal_script, q1) = match rd_bytes(bytes, q0) {
        Some(q) => q,
        None => return None,
    };
    let (control_block, q2) = match rd_bytes(bytes, q1) {
        Some(q) => q,
        None => return None,
    };
    let (untweaked_secret, q3) = match rd_bytes(bytes, q2) {
        Some(q) => q,
        None => return None,
    };
    let (tweaked_secret, q4) = match rd_bytes(bytes, q3) {
        Some(q) => q,
        None => return None,
    };
    if q4 != bytes.len() {
        return None;
    }
    let state = TaprootData {
        inscriptions,
        reveal_script,
        control_block,
        taproot_address,
        untweaked_secret,
        tweaked_secret,
    };
    proof {
        let b = bytes@;
        let insc_views = state.inscriptions@.map_values(|i: Inscription| i@);
        assert(enc_inscriptions(insc_views) =~= b.subrange(0, q0 as int)) by {
            assert(b.subrange(0, q0 as int) =~= b.subrange(0, p0 as int) + b.subrange(
                p0 as int,
                q0 as int,
            ));
            assert(insc_views.len() == n64 as nat);
        }
        lemma_chain5(
            b,
            0, q0 as int, q1 as int, q2 as int, q3 as int, q4 as int,
            enc_inscriptions(insc_views),
            enc_bytes(state.reveal_script@),
            enc_bytes(state.control_block@),
            enc_bytes(state.untweaked_secret@),
            enc_bytes(state.tweaked_secret@),
        );
        assert(b.subrange(0, q4 as int) =~= b);
        assert(state_enc_of(state) == b);
    }
    Some(state)
}

} // verus!
