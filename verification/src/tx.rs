//! The transaction model: plain-data transactions, their consensus
//! serialization, and the weight and virtual size that fee estimation and the
//! standardness limit are measured against.

use vstd::prelude::*;
use crate::bytes::{push_all, push_u32_le, push_u64_le, push_varint, u32_le, u64_le, varint};

verus! {

/// A reference to a transaction output: the 32-byte transaction id and the
/// output index.
#[derive(Debug)]
pub struct OutPointM {
    pub txid: Vec<u8>,
    pub vout: u32,
}

/// A transaction output: a value in satoshis and an output script.
#[derive(Debug)]
pub struct TxOutM {
    pub value: u64,
    pub script_pubkey: Vec<u8>,
}

/// A transaction input. The signature script is always empty in this engine
/// (all spends are segwit), so it is not modelled.
#[derive(Debug)]
pub struct TxInM {
    pub previous_output: OutPointM,
    pub sequence: u32,
    pub witness: Vec<Vec<u8>>,
}

/// A transaction.
#[derive(Debug)]
pub struct TransactionM {
    pub version: u32,
    pub lock_time: u32,
    pub input: Vec<TxInM>,
    pub output: Vec<TxOutM>,
}

/// Mathematical images of the model types.
pub struct OutPointV {
    pub txid: Seq<u8>,
    pub vout: u32,
}

pub struct TxOutV {
    pub value: u64,
    pub script_pubkey: Seq<u8>,
}

pub struct TxInV {
    pub previous_output: OutPointV,
    pub sequence: u32,
    pub witness: Seq<Seq<u8>>,
}

pub struct TxV {
    pub version: u32,
    pub lock_time: u32,
    pub input: Seq<TxInV>,
    pub output: Seq<TxOutV>,
}

impl View for OutPointM {
    type V = OutPointV;

    open spec fn view(&self) -> OutPointV {
        OutPointV { txid: self.txid@, vout: self.vout }
    }
}

impl View for TxOutM {
    type V = TxOutV;

    open spec fn view(&self) -> TxOutV {
        TxOutV { value: self.value, script_pubkey: self.script_pubkey@ }
    }
}

impl View for TxInM {
    type V = TxInV;

    open spec fn view(&self) -> TxInV {
        TxInV {
            previous_output: self.previous_output@,
            sequence: self.sequence,
            witness: self.witness@.map_values(|w: Vec<u8>| w@),
        }
    }
}

impl View for TransactionM {
    type V = TxV;

    open spec fn view(&self) -> TxV {
        TxV {
            version: self.version,
            lock_time: self.lock_time,
            input: self.input@.map_values(|i: TxInM| i@),
            output: self.output@.map_values(|o: TxOutM| o@),
        }
    }
}

/// A well-formed outpoint carries a 32-byte transaction id.
pub open spec fn wf_outpoint(o: OutPointV) -> bool {
    o.txid.len() == 32
}

pub open spec fn wf_tx(t: TxV) -> bool {
    forall|i: int| 0 <= i < t.input.len() ==> wf_outpoint(#[trigger] t.input[i].previous_output)
}

/// Consensus serialization of an outpoint.
pub open spec fn ser_outpoint(o: OutPointV) -> Seq<u8> {
    o.txid + u32_le(o.vout as nat)
}

/// Consensus serialization of an input without its witness: outpoint, empty
/// signature script, sequence number.
pub open spec fn ser_txin_base(i: TxInV) -> Seq<u8> {
    ser_outpoint(i.previous_output) + seq![0u8] + u32_le(i.sequence as nat)
}

/// Consensus serialization of an output.
pub open spec fn ser_txout(o: TxOutV) -> Seq<u8> {
    u64_le(o.value as nat) + varint(o.script_pubkey.len()) + o.script_pubkey
}

/// Serialization of the witness stack items of one input.
pub open spec fn ser_wit_items(ws: Seq<Seq<u8>>) -> Seq<u8>
    decreases ws.len(),
{
    if ws.len() == 0 {
        Seq::empty()
    } else {
        varint(ws[0].len()) + ws[0] + ser_wit_items(ws.drop_first())
    }
}

/// Serialization of one input's witness: item count, then each item.
pub open spec fn ser_witness(i: TxInV) -> Seq<u8> {
    varint(i.witness.len()) + ser_wit_items(i.witness)
}

pub open spec fn ser_inputs(s: Seq<TxInV>) -> Seq<u8>
    decreases s.len(),
{
    if s.len() == 0 {
        Seq::empty()
    } else {
        ser_txin_base(s[0]) + ser_inputs(s.drop_first())
    }
}

pub open spec fn ser_outputs(s: Seq<TxOutV>) -> Seq<u8>
    decreases s.len(),
{
    if s.len() == 0 {
        Seq::empty()
    } else {
        ser_txout(s[0]) + ser_outputs(s.drop_first())
    }
}

pub open spec fn ser_witnesses(s: Seq<TxInV>) -> Seq<u8>
    decreases s.len(),
{
    if s.len() == 0 {
        Seq::empty()
    } else {
        ser_witness(s[0]) + ser_witnesses(s.drop_first())
    }
}

/// Whether any input carries a non-empty witness; only then does the segwit
/// serialization differ from the base one.
pub open spec fn tx_has_witness(t: TxV) -> bool {
    exists|i: int| 0 <= i < t.input.len() && #[trigger] t.input[i].witness.len() > 0
}

/// Consensus serialization of a transaction. With `segwit` set and a witness
/// present it carries the marker and flag bytes and the witness section.
pub open spec fn ser_tx(t: TxV, segwit: bool) -> Seq<u8> {
    let seg = segwit && tx_has_witness(t);
    u32_le(t.version as nat) + (if seg {
        seq![0u8, 1u8]
    } else {
        Seq::empty()
    }) + varint(t.input.len()) + ser_inputs(t.input) + varint(t.output.len()) + ser_outputs(
        t.output,
    ) + (if seg {
        ser_witnesses(t.input)
    } else {
        Seq::empty()
    }) + u32_le(t.lock_time as nat)
}

/// The transaction's weight: three times the base size plus the total size,
/// per BIP-141.
pub open spec fn tx_weight(t: TxV) -> nat {
    3 * ser_tx(t, false).len() + ser_tx(t, true).len()
}

/// The virtual size: the weight divided by four, rounded up.
pub open spec fn tx_vsize(t: TxV) -> nat {
    (tx_weight(t) + 3) / 4
}

pub proof fn lemma_ser_inputs_take(s: Seq<TxInV>, i: int)
    requires
        0 <= i < s.len(),
    ensures
        ser_inputs(s.take(i + 1)) == ser_inputs(s.take(i)) + ser_txin_base(s[i]),
    decreases i,
{
    if i == 0 {
        assert(s.take(1).drop_first() =~= Seq::<TxInV>::empty());
        assert(ser_inputs(Seq::<TxInV>::empty()) == Seq::<u8>::empty());
        assert(ser_inputs(s.take(0)) =~= Seq::<u8>::empty());
        assert(ser_inputs(s.take(1)) =~= ser_txin_base(s[0]));
    } else {
        lemma_ser_inputs_take(s.drop_first(), i - 1);
        assert(s.take(i + 1).drop_first() =~= s.drop_first().take(i));
        assert(s.take(i).drop_first() =~= s.drop_first().take(i - 1));
        assert(s.drop_first()[i - 1] == s[i]);
        assert(ser_inputs(s.take(i + 1)) =~= ser_inputs(s.take(i)) + ser_txin_base(s[i]));
    }
}

pub proof fn lemma_ser_outputs_take(s: Seq<TxOutV>, i: int)
    requires
        0 <= i < s.len(),
    ensures
        ser_outputs(s.take(i + 1)) == ser_outputs(s.take(i)) + ser_txout(s[i]),
    decreases i,
{
    if i == 0 {
        assert(s.take(1).drop_first() =~= Seq::<TxOutV>::empty());
        assert(ser_outputs(Seq::<TxOutV>::empty()) == Seq::<u8>::empty());
        assert(ser_outputs(s.take(0)) =~= Seq::<u8>::empty());
        assert(ser_outputs(s.take(1)) =~= ser_txout(s[0]));
    } else {
        lemma_ser_outputs_take(s.drop_first(), i - 1);
        assert(s.take(i + 1).drop_first() =~= s.drop_first().take(i));
        assert(s.take(i).drop_first() =~= s.drop_first().take(i - 1));
        assert(s.drop_first()[i - 1] == s[i]);
        assert(ser_outputs(s.take(i + 1)) =~= ser_outputs(s.take(i)) + ser_txout(s[i]));
    }
}

pub proof fn lemma_ser_witnesses_take(s: Seq<TxInV>, i: int)
    requires
        0 <= i < s.len(),
    ensures
        ser_witnesses(s.take(i + 1)) == ser_witnesses(s.take(i)) + ser_witness(s[i]),
    decreases i,
{
    if i == 0 {
        assert(s.take(1).drop_first() =~= Seq::<TxInV>::empty());
        assert(ser_witnesses(Seq::<TxInV>::empty()) == Seq::<u8>::empty());
        assert(ser_witnesses(s.take(0)) =~= Seq::<u8>::empty());
        assert(ser_witnesses(s.take(1)) =~= ser_witness(s[0]));
    } else {
        lemma_ser_witnesses_take(s.drop_first(), i - 1);
        assert(s.take(i + 1).drop_first() =~= s.drop_first().take(i));
        assert(s.take(i).drop_first() =~= s.drop_first().take(i - 1));
        assert(s.drop_first()[i - 1] == s[i]);
        assert(ser_witnesses(s.take(i + 1)) =~= ser_witnesses(s.take(i)) + ser_witness(s[i]));
    }
}

pub proof fn lemma_ser_wit_items_take(s: Seq<Seq<u8>>, i: int)
    requires
        0 <= i < s.len(),
    ensures
        ser_wit_items(s.take(i + 1)) == ser_wit_items(s.take(i)) + varint(s[i].len()) + s[i],
    decreases i,
{
    if i == 0 {
        assert(s.take(1).drop_first() =~= Seq::<Seq<u8>>::empty());
        assert(ser_wit_items(Seq::<Seq<u8>>::empty()) == Seq::<u8>::empty());
        assert(ser_wit_items(s.take(0)) =~= Seq::<u8>::empty());
        assert(ser_wit_items(s.take(1)) =~= varint(s[0].len()) + s[0]);
    } else {
        lemma_ser_wit_items_take(s.drop_first(), i - 1);
        assert(s.take(i + 1).drop_first() =~= s.drop_first().take(i));
        assert(s.take(i).drop_first() =~= s.drop_first().take(i - 1));
        assert(s.drop_first()[i - 1] == s[i]);
        assert(ser_wit_items(s.take(i + 1)) =~= ser_wit_items(s.take(i)) + varint(s[i].len())
            + s[i]);
    }
}

/// Whether any input of `tx` carries a non-empty witness.
pub fn has_witness(tx: &TransactionM) -> (r: bool)
    ensures
        r == tx_has_witness(tx@),
{
    let mut i: usize = 0;
    while i < tx.input.len()
        invariant
            0 <= i <= tx.input.len(),
            tx@.input.len() == tx.input@.len(),
            forall|j: int| 0 <= j < i ==> #[trigger] tx@.input[j].witness.len() == 0,
        decreases tx.input.len() - i,
    {
        if tx.input[i].witness.len() > 0 {
            assert(tx@.input[i as int].witness.len() > 0);
            return true;
        }
        assert(tx@.input[i as int].witness.len() == 0);
        i = i + 1;
    }
    false
}

/// Appends the serialized witness of one input.
fn push_witness(out: &mut Vec<u8>, txin: &TxInM)
    ensures
        final(out)@ == old(out)@ + ser_witness(txin@),
{
    push_varint(out, txin.witness.len() as u64);
    let ghost pre = out@;
    let mut j: usize = 0;
    while j < txin.witness.len()
        invariant
            0 <= j <= txin.witness.len(),
            txin@.witness.len() == txin.witness@.len(),
            out@ == pre + ser_wit_items(txin@.witness.take(j as int)),
        decreases txin.witness.len() - j,
    {
        push_varint(out, txin.witness[j].len() as u64);
        push_all(out, &txin.witness[j]);
        proof {
            assert(txin@.witness[j as int] == txin.witness@[j as int]@);
            lemma_ser_wit_items_take(txin@.witness, j as int);
        }
        j = j + 1;
    }
    proof {
        assert(txin@.witness.take(txin@.witness.len() as int) =~= txin@.witness);
    }
}

/// Serializes a transaction in consensus encoding. With `segwit` set the
/// witness section, marker and flag are included whenever any witness is
/// non-empty.
pub fn serialize_tx(tx: &TransactionM, segwit: bool) -> (r: Vec<u8>)
    ensures
        r@ == ser_tx(tx@, segwit),
{
    let mut out: Vec<u8> = Vec::new();
    push_u32_le(&mut out, tx.version);
    let seg = segwit && has_witness(tx);
    if seg {
        out.push(0u8);
        out.push(1u8);
    }
    push_varint(&mut out, tx.input.len() as u64);
    let ghost pre_in = out@;
    let mut i: usize = 0;
    while i < tx.input.len()
        invariant
            0 <= i <= tx.input.len(),
            tx@.input.len() == tx.input@.len(),
            out@ == pre_in + ser_inputs(tx@.input.take(i as int)),
        decreases tx.input.len() - i,
    {
        let txin = &tx.input[i];
        push_all(&mut out, &txin.previous_output.txid);
        push_u32_le(&mut out, txin.previous_output.vout);
        out.push(0u8);
        push_u32_le(&mut out, txin.sequence);
        proof {
            assert(tx@.input[i as int] == tx.input@[i as int]@);
            lemma_ser_inputs_take(tx@.input, i as int);
            assert(out@ =~= pre_in + ser_inputs(tx@.input.take(i + 1)));
        }
        i = i + 1;
    }
    proof {
        assert(tx@.input.take(tx@.input.len() as int) =~= tx@.input);
    }
    push_varint(&mut out, tx.output.len() as u64);
    let ghost pre_out = out@;
    let mut k: usize = 0;
    while k < tx.output.len()
        invariant
            0 <= k <= tx.output.len(),
            tx@.output.len() == tx.output@.len(),
            out@ == pre_out + ser_outputs(tx@.output.take(k as int)),
        decreases tx.output.len() - k,
    {
        let txout = &tx.output[k];
        push_u64_le(&mut out, txout.value);
        push_varint(&mut out, txout.script_pubkey.len() as u64);
        push_all(&mut out, &txout.script_pubkey);
        proof {
            assert(tx@.output[k as int] == tx.output@[k as int]@);
            lemma_ser_outputs_take(tx@.output, k as int);
            assert(out@ =~= pre_out + ser_outputs(tx@.output.take(k + 1)));
        }
        k = k + 1;
    }
    proof {
        assert(tx@.output.take(tx@.output.len() as int) =~= tx@.output);
    }
    if seg {
        let ghost pre_wit = out@;
        let mut w: usize = 0;
        while w < tx.input.len()
            invariant
                0 <= w <= tx.input.len(),
                tx@.input.len() == tx.input@.len(),
                out@ == pre_wit + ser_witnesses(tx@.input.take(w as int)),
            decreases tx.input.len() - w,
        {
            push_witness(&mut out, &tx.input[w]);
            proof {
                assert(tx@.input[w as int] == tx.input@[w as int]@);
                lemma_ser_witnesses_take(tx@.input, w as int);
            }
            w = w + 1;
        }
        proof {
            assert(tx@.input.take(tx@.input.len() as int) =~= tx@.input);
        }
    }
    push_u32_le(&mut out, tx.lock_time);
    proof {
        assert(out@ =~= ser_tx(tx@, segwit));
    }
    out
}

/// Computes the transaction's weight.
pub fn compute_weight(tx: &TransactionM) -> (r: u128)
    ensures
        r == tx_weight(tx@),
        r <= 0x3_ffff_ffff_ffff_fffc,
{
    let base = serialize_tx(tx, false);
    let total = serialize_tx(tx, true);
    3 * (base.len() as u128) + (total.len() as u128)
}

/// Computes the transaction's virtual size; it always fits in 64 bits.
#[verifier::rlimit(50)]
pub fn compute_vsize(tx: &TransactionM) -> (r: u64)
    ensures
        r == tx_vsize(tx@),
{
    let w = compute_weight(tx);
    let v: u128 = (w + 3) / 4;
    proof {
        assert(v == tx_vsize(tx@));
        assert(v <= 0xffff_ffff_ffff_ffff);
    }
    v as u64
}

/// Inputs that agree on outpoint and sequence serialize to the same base
/// bytes, whatever their witnesses.
pub proof fn lemma_ser_inputs_bases_eq(s1: Seq<TxInV>, s2: Seq<TxInV>)
    requires
        s1.len() == s2.len(),
        forall|i: int|
            0 <= i < s1.len() ==> (#[trigger] s1[i]).previous_output == s2[i].previous_output
                && s1[i].sequence == s2[i].sequence,
    ensures
        ser_inputs(s1) == ser_inputs(s2),
    decreases s1.len(),
{
    if s1.len() > 0 {
        assert(s1[0].previous_output == s2[0].previous_output && s1[0].sequence == s2[0].sequence);
        assert(ser_txin_base(s1[0]) == ser_txin_base(s2[0]));
        assert(forall|i: int|
            0 <= i < s1.drop_first().len() ==> (#[trigger] s1.drop_first()[i]).previous_output
                == s2.drop_first()[i].previous_output && s1.drop_first()[i].sequence
                == s2.drop_first()[i].sequence);
        lemma_ser_inputs_bases_eq(s1.drop_first(), s2.drop_first());
    }
}

/// Witness stacks with the same item lengths serialize to the same length.
pub proof fn lemma_ser_wit_items_len_eq(w1: Seq<Seq<u8>>, w2: Seq<Seq<u8>>)
    requires
        w1.len() == w2.len(),
        forall|j: int| 0 <= j < w1.len() ==> (#[trigger] w1[j]).len() == w2[j].len(),
    ensures
        ser_wit_items(w1).len() == ser_wit_items(w2).len(),
    decreases w1.len(),
{
    if w1.len() > 0 {
        assert(w1[0].len() == w2[0].len());
        assert(varint(w1[0].len()) == varint(w2[0].len()));
        assert(forall|j: int|
            0 <= j < w1.drop_first().len() ==> (#[trigger] w1.drop_first()[j]).len()
                == w2.drop_first()[j].len());
        lemma_ser_wit_items_len_eq(w1.drop_first(), w2.drop_first());
    }
}

/// Witness sections with itemwise-equal lengths serialize to the same length.
pub proof fn lemma_ser_witnesses_len_eq(s1: Seq<TxInV>, s2: Seq<TxInV>)
    requires
        s1.len() == s2.len(),
        forall|i: int| 0 <= i < s1.len() ==> (#[trigger] s1[i]).witness.len() == s2[i].witness.len(),
        forall|i: int, j: int|
            0 <= i < s1.len() && 0 <= j < s1[i].witness.len() ==> (#[trigger] s1[i].witness[j]).len()
                == s2[i].witness[j].len(),
    ensures
        ser_witnesses(s1).len() == ser_witnesses(s2).len(),
    decreases s1.len(),
{
    if s1.len() > 0 {
        assert(s1[0].witness.len() == s2[0].witness.len());
        assert(forall|j: int|
            0 <= j < s1[0].witness.len() ==> (#[trigger] s1[0].witness[j]).len()
                == s2[0].witness[j].len());
        lemma_ser_wit_items_len_eq(s1[0].witness, s2[0].witness);
        assert(forall|i: int|
            0 <= i < s1.drop_first().len() ==> (#[trigger] s1.drop_first()[i]).witness.len()
                == s2.drop_first()[i].witness.len());
        assert forall|i: int, j: int|
            0 <= i < s1.drop_first().len() && 0 <= j
                < s1.drop_first()[i].witness.len() implies (#[trigger] s1.drop_first()[i].witness[j]).len()
            == s2.drop_first()[i].witness[j].len() by {
            assert(s1.drop_first()[i] == s1[i + 1]);
            assert(s1[i + 1].witness[j].len() == s2[i + 1].witness[j].len());
        }
        lemma_ser_witnesses_len_eq(s1.drop_first(), s2.drop_first());
    }
}

/// Two transactions that differ only in witness bytes, with itemwise-equal
/// witness lengths, have the same weight and the same virtual size.
pub proof fn lemma_tx_weight_witness_lengths(t1: TxV, t2: TxV)
    requires
        t1.version == t2.version,
        t1.lock_time == t2.lock_time,
        t1.output == t2.output,
        t1.input.len() == t2.input.len(),
        forall|i: int|
            0 <= i < t1.input.len() ==> (#[trigger] t1.input[i]).previous_output
                == t2.input[i].previous_output && t1.input[i].sequence == t2.input[i].sequence,
        forall|i: int|
            0 <= i < t1.input.len() ==> (#[trigger] t1.input[i]).witness.len()
                == t2.input[i].witness.len(),
        forall|i: int, j: int|
            0 <= i < t1.input.len() && 0 <= j < t1.input[i].witness.len() ==> (#[trigger] t1.input[i].witness[j]).len()
                == t2.input[i].witness[j].len(),
    ensures
        tx_weight(t1) == tx_weight(t2),
        tx_vsize(t1) == tx_vsize(t2),
{
    lemma_ser_inputs_bases_eq(t1.input, t2.input);
    lemma_ser_witnesses_len_eq(t1.input, t2.input);
    assert(tx_has_witness(t1) == tx_has_witness(t2)) by {
        if tx_has_witness(t1) {
            let i = choose|i: int|
                0 <= i < t1.input.len() && #[trigger] t1.input[i].witness.len() > 0;
            assert(t2.input[i].witness.len() > 0);
        }
        if tx_has_witness(t2) {
            let i = choose|i: int|
                0 <= i < t2.input.len() && #[trigger] t2.input[i].witness.len() > 0;
            assert(t1.input[i].witness.len() > 0);
        }
    }
    assert(ser_tx(t1, false).len() == ser_tx(t2, false).len());
    assert(ser_tx(t1, true).len() == ser_tx(t2, true).len());
}

/// Inputs whose txids have the same lengths serialize to base bytes of the
/// same length, whatever the ids, indices and sequence numbers.
pub proof fn lemma_ser_inputs_len_shape(s1: Seq<TxInV>, s2: Seq<TxInV>)
    requires
        s1.len() == s2.len(),
        forall|i: int|
            0 <= i < s1.len() ==> (#[trigger] s1[i]).previous_output.txid.len()
                == s2[i].previous_output.txid.len(),
    ensures
        ser_inputs(s1).len() == ser_inputs(s2).len(),
    decreases s1.len(),
{
    if s1.len() > 0 {
        assert(s1[0].previous_output.txid.len() == s2[0].previous_output.txid.len());
        assert(ser_txin_base(s1[0]).len() == ser_txin_base(s2[0]).len());
        assert(forall|i: int|
            0 <= i < s1.drop_first().len() ==> (#[trigger] s1.drop_first()[i]).previous_output.txid.len()
                == s2.drop_first()[i].previous_output.txid.len());
        lemma_ser_inputs_len_shape(s1.drop_first(), s2.drop_first());
    }
}

/// Two transactions with the same outputs, the same input count, txids of
/// the same lengths and witnesses of itemwise-equal lengths have the same
/// weight and virtual size: weight is a function of the shape alone.
pub proof fn lemma_tx_weight_shape(t1: TxV, t2: TxV)
    requires
        t1.output == t2.output,
        t1.input.len() == t2.input.len(),
        forall|i: int|
            0 <= i < t1.input.len() ==> (#[trigger] t1.input[i]).previous_output.txid.len()
                == t2.input[i].previous_output.txid.len(),
        forall|i: int|
            0 <= i < t1.input.len() ==> (#[trigger] t1.input[i]).witness.len()
                == t2.input[i].witness.len(),
        forall|i: int, j: int|
            0 <= i < t1.input.len() && 0 <= j < t1.input[i].witness.len() ==> (#[trigger] t1.input[i].witness[j]).len()
                == t2.input[i].witness[j].len(),
    ensures
        tx_weight(t1) == tx_weight(t2),
        tx_vsize(t1) == tx_vsize(t2),
{
    lemma_ser_inputs_len_shape(t1.input, t2.input);
    lemma_ser_witnesses_len_eq(t1.input, t2.input);
    assert(tx_has_witness(t1) == tx_has_witness(t2)) by {
        if tx_has_witness(t1) {
            let i = choose|i: int|
                0 <= i < t1.input.len() && #[trigger] t1.input[i].witness.len() > 0;
            assert(t2.input[i].witness.len() > 0);
        }
        if tx_has_witness(t2) {
            let i = choose|i: int|
                0 <= i < t2.input.len() && #[trigger] t2.input[i].witness.len() > 0;
            assert(t1.input[i].witness.len() > 0);
        }
    }
    assert(ser_tx(t1, false).len() == ser_tx(t2, false).len());
    assert(ser_tx(t1, true).len() == ser_tx(t2, true).len());
}

} // verus!
