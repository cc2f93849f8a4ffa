//! The batching plan: modes, arity invariants, postage policy, and the reveal
//! transaction skeleton with its fee estimate.

use vstd::prelude::*;
use crate::envelope::{Inscription, InscriptionId};
use crate::runes::EtchingM;
use crate::tx::{
    tx_vsize, OutPointM, OutPointV, TransactionM, TxInM, TxInV, TxOutM, TxOutV, TxV,
};

verus! {

/// The non-final sequence number that keeps replace-by-fee on.
pub const SEQUENCE_RBF: u32 = 0xFFFF_FFFD;

/// When an etching is present, reveal inputs use a relative lock of
/// `COMMIT_CONFIRMATIONS - 1` blocks to enforce commit maturity.
pub const SEQUENCE_COMMIT_MATURITY: u32 = 5;

/// The largest standard transaction weight.
pub const MAX_STANDARD_TX_WEIGHT: u64 = 400_000;

/// How a batch lays out its reveal outputs.
#[derive(Clone, Copy, PartialEq, Eq, Structural, Debug)]
pub enum Mode {
    SeparateOutputs,
    SharedOutput,
    SameSat,
    SatPoints,
}

/// The position of one satoshi: an outpoint and a byte offset into its value.
#[derive(Debug)]
pub struct SatPointM {
    pub outpoint: OutPointM,
    pub offset: u64,
}

pub struct SatPointV {
    pub outpoint: OutPointV,
    pub offset: u64,
}

impl View for SatPointM {
    type V = SatPointV;

    open spec fn view(&self) -> SatPointV {
        SatPointV { outpoint: self.outpoint@, offset: self.offset }
    }
}

/// The parent inscription being resent alongside its new child: its id, its
/// current location and output, and the script to resend it to.
#[derive(Debug)]
pub struct ParentInfo {
    pub id: InscriptionId,
    pub location: SatPointM,
    pub destination: Vec<u8>,
    pub tx_out: TxOutM,
}

/// What went wrong while building the transaction pair.
#[derive(Clone, Copy, PartialEq, Eq, Structural, Debug)]
pub enum BatchError {
    /// No unlocked, uninscribed, non-runic output with a positive value.
    NoCardinalUtxos,
    /// The chosen satpoint is already inscribed and reinscription was not
    /// requested.
    SatAlreadyInscribed,
    /// Another inscription occupies the same outpoint at a different offset.
    UtxoAlreadyInscribed,
    /// Reinscription was requested but nothing is inscribed there.
    NotAReinscription,
    /// The runestone exceeds the standard OP_RETURN size.
    RunestoneTooLarge { len: usize },
    /// A reveal output would be below its script's dust threshold.
    Dust { index: usize },
    /// The reveal transaction exceeds the standard weight limit.
    WeightExceeded,
    /// A value or fee computation exceeded 64 bits.
    ValueOverflow,
    /// Key material failed to load: not a valid secret key.
    KeyInvalid,
    /// The sighash could not be computed over the assembled transaction.
    SighashFailed,
    /// No output of the commit transaction pays to the commit address.
    CommitOutputMissing,
    /// The persisted tweaked key does not match the commit output script.
    TweakedKeyMismatch,
    /// The persisted record could not be decoded.
    StateCorrupt,
}

/// The parameters of one inscribe flow.
#[derive(Debug)]
pub struct Plan {
    /// Fee rate of the commit transaction, in sat/vbyte.
    pub commit_fee_rate: u64,
    /// Reveal output scripts, in order.
    pub destinations: Vec<Vec<u8>>,
    /// Build and return PSBTs instead of broadcasting.
    pub dry_run: bool,
    /// Optional rune etching carried by the reveal.
    pub etching: Option<EtchingM>,
    /// The inscriptions of the batch, in order.
    pub inscriptions: Vec<Inscription>,
    /// The output layout.
    pub mode: Mode,
    /// Skip backing up the recovery key.
    pub no_backup: bool,
    /// Ignore the standard-weight and OP_RETURN size limits.
    pub no_limit: bool,
    /// The parent inscription, if the batch creates children.
    pub parent_info: Option<ParentInfo>,
    /// Reveal output values in satoshis, in order.
    pub postages: Vec<u64>,
    /// Allow inscribing over an existing inscription.
    pub reinscribe: bool,
    /// Fee rate of the reveal transaction, in sat/vbyte.
    pub reveal_fee_rate: u64,
    /// In `SatPoints` mode, the exact outputs spent by the reveal.
    pub reveal_satpoints: Vec<(SatPointM, TxOutM)>,
    /// The satoshi to inscribe; chosen from the wallet when absent.
    pub satpoint: Option<SatPointM>,
}

impl Default for Plan {
    /// One shared output of 10000 sats at fee rate 1, nothing else set.
    fn default() -> (r: Plan)
        ensures
            r.commit_fee_rate == 1,
            r.destinations@.len() == 0,
            !r.dry_run,
            r.etching is None,
            r.inscriptions@.len() == 0,
            r.mode == Mode::SharedOutput,
            !r.no_backup,
            !r.no_limit,
            r.parent_info is None,
            r.postages@ == seq![10_000u64],
            !r.reinscribe,
            r.reveal_fee_rate == 1,
            r.reveal_satpoints@.len() == 0,
            r.satpoint is None,
    {
        let mut postages: Vec<u64> = Vec::new();
        postages.push(10_000);
        assert(postages@ =~= seq![10_000u64]);
        Plan {
            commit_fee_rate: 1,
            destinations: Vec::new(),
            dry_run: false,
            etching: None,
            inscriptions: Vec::new(),
            mode: Mode::SharedOutput,
            no_backup: false,
            no_limit: false,
            parent_info: None,
            postages,
            reinscribe: false,
            reveal_fee_rate: 1,
            reveal_satpoints: Vec::new(),
            satpoint: None,
        }
    }
}

/// The arity invariants each mode puts on destinations, inscriptions and
/// postages.
pub open spec fn mode_arity_ok(
    mode: Mode,
    destinations: nat,
    inscriptions: nat,
    postages: nat,
) -> bool {
    match mode {
        Mode::SeparateOutputs | Mode::SatPoints => destinations == inscriptions && destinations
            == postages,
        Mode::SharedOutput => destinations == 1 && postages == inscriptions,
        Mode::SameSat => destinations == 1 && postages == 1,
    }
}

/// Whether every inscription of the plan declares exactly the given parent.
pub open spec fn parents_match(inscriptions: Seq<Inscription>, parent: InscriptionId) -> bool {
    forall|i: int|
        0 <= i < inscriptions.len() ==> (#[trigger] inscriptions[i])@.parents =~= seq![parent@]
}

impl Plan {
    /// The arity invariants of this plan's mode.
    pub open spec fn arity_ok(&self) -> bool {
        mode_arity_ok(
            self.mode,
            self.destinations@.len(),
            self.inscriptions@.len(),
            self.postages@.len(),
        )
    }

    /// Checks the arity invariants of the plan's mode.
    pub fn validate_arity(&self) -> (r: bool)
        ensures
            r == self.arity_ok(),
    {
        match self.mode {
            Mode::SeparateOutputs | Mode::SatPoints => self.destinations.len()
                == self.inscriptions.len() && self.destinations.len() == self.postages.len(),
            Mode::SharedOutput => self.destinations.len() == 1 && self.postages.len()
                == self.inscriptions.len(),
            Mode::SameSat => self.destinations.len() == 1 && self.postages.len() == 1,
        }
    }

    /// The transaction with every witness dropped, as a value.
    pub open spec fn spec_stripped(transaction: TransactionM) -> TxV {
        TxV {
            input: Seq::new(
                transaction@.input.len(),
                |i: int| TxInV { witness: Seq::empty(), ..transaction@.input[i] },
            ),
            ..transaction@
        }
    }

    /// Strips every input's witness, leaving the skeleton unchanged.
    pub fn remove_witnesses(mut transaction: TransactionM) -> (r: TransactionM)
        ensures
            r@ == Plan::spec_stripped(transaction),
            r.version == transaction.version,
            r.lock_time == transaction.lock_time,
            r@.output == transaction@.output,
            r@.input.len() == transaction@.input.len(),
            forall|i: int|
                0 <= i < r@.input.len() ==> #[trigger] r@.input[i] == (TxInV {
                    witness: Seq::empty(),
                    ..transaction@.input[i]
                }),
    {
        let ghost orig = transaction@;
        let mut stripped: Vec<TxInM> = Vec::new();
        let mut i: usize = 0;
        while i < transaction.input.len()
            invariant
                0 <= i <= transaction.input@.len(),
                transaction@ == orig,
                orig.input.len() == transaction.input@.len(),
                stripped@.len() == i,
                forall|j: int|
                    0 <= j < i ==> #[trigger] stripped@[j]@ == (TxInV {
                        witness: Seq::empty(),
                        ..orig.input[j]
                    }),
            decreases transaction.input@.len() - i,
        {
            let txin = &transaction.input[i];
            let mut txid: Vec<u8> = Vec::new();
            crate::bytes::push_all(&mut txid, &txin.previous_output.txid);
            stripped.push(
                TxInM {
                    previous_output: OutPointM { txid, vout: txin.previous_output.vout },
                    sequence: txin.sequence,
                    witness: Vec::new(),
                },
            );
            proof {
                assert(orig.input[i as int] == transaction.input@[i as int]@);
                assert(stripped@[i as int]@.witness =~= Seq::<Seq<u8>>::empty());
                assert(stripped@[i as int]@ == (TxInV {
                    witness: Seq::empty(),
                    ..orig.input[i as int]
                }));
            }
            i = i + 1;
        }
        let r = TransactionM {
            version: transaction.version,
            lock_time: transaction.lock_time,
            input: stripped,
            output: transaction.output,
        };
        proof {
            assert(r@.output =~= orig.output);

            assert forall|j: int| 0 <= j < r@.input.len() implies #[trigger] r@.input[j] == (TxInV {
                witness: Seq::empty(),
                ..orig.input[j]
            }) by {
                assert(r@.input[j] == stripped@[j]@);
            }
            assert(r@.input =~= Seq::new(
                orig.input.len(),
                |i: int| TxInV { witness: Seq::empty(), ..orig.input[i] },
            ));
        }
        r
    }
}

/// The sum of a list of satoshi values, as an unbounded integer.
pub open spec fn sum_values(s: Seq<u64>) -> int
    decreases s.len(),
{
    if s.len() == 0 {
        0
    } else {
        s[0] + sum_values(s.drop_first())
    }
}

pub proof fn lemma_sum_values_take(s: Seq<u64>, i: int)
    requires
        0 <= i < s.len(),
    ensures
        sum_values(s.take(i + 1)) == sum_values(s.take(i)) + s[i],
    decreases i,
{
    if i == 0 {
        assert(s.take(1).drop_first() =~= Seq::<u64>::empty());
        assert(s.take(0) =~= Seq::<u64>::empty());
        assert(sum_values(s.take(1)) == s[0] + sum_values(Seq::<u64>::empty()));
    } else {
        lemma_sum_values_take(s.drop_first(), i - 1);
        assert(s.take(i + 1).drop_first() =~= s.drop_first().take(i));
        assert(s.take(i).drop_first() =~= s.drop_first().take(i - 1));
        assert(s.drop_first()[i - 1] == s[i]);
    }
}

pub proof fn lemma_sum_values_nonneg(s: Seq<u64>)
    ensures
        sum_values(s) >= 0,
    decreases s.len(),
{
    if s.len() > 0 {
        lemma_sum_values_nonneg(s.drop_first());
    }
}

/// Sums satoshi values, failing on 64-bit overflow.
pub fn checked_sum(values: &Vec<u64>) -> (r: Option<u64>)
    ensures
        r matches Some(v) ==> v == sum_values(values@),
        r is None <==> sum_values(values@) > u64::MAX,
{
    let mut total: u64 = 0;
    let mut i: usize = 0;
    assert(values@.take(0) =~= Seq::<u64>::empty());
    while i < values.len()
        invariant
            0 <= i <= values@.len(),
            total == sum_values(values@.take(i as int)),
        decreases values@.len() - i,
    {
        proof {
            lemma_sum_values_take(values@, i as int);
        }
        if total > u64::MAX - values[i] {
            proof {
                lemma_sum_prefix_bound(values@, i + 1);
            }
            return None;
        }
        total = total + values[i];
        i = i + 1;
    }
    proof {
        assert(values@.take(values@.len() as int) =~= values@);
    }
    Some(total)
}

/// A prefix sum never exceeds the whole sum.
pub proof fn lemma_sum_prefix_bound(s: Seq<u64>, i: int)
    requires
        0 <= i <= s.len(),
    ensures
        sum_values(s.take(i)) <= sum_values(s),
    decreases s.len() - i,
{
    if i < s.len() {
        lemma_sum_values_take(s, i);
        lemma_sum_prefix_bound(s, i + 1);
    } else {
        assert(s.take(i) =~= s);
    }
}

/// The 64 zero bytes standing in for a Schnorr signature during fee
/// estimation; real signatures have the same length.
pub open spec fn dummy_sig() -> Seq<u8> {
    Seq::new(64, |i: int| 0u8)
}

/// The witness stack assumed for input `i` when estimating the reveal fee:
/// the commit input carries a signature, the leaf script and the control
/// block; every other input a single signature.
pub open spec fn estimate_witness(
    i: int,
    commit_idx: int,
    script: Seq<u8>,
    control_block: Seq<u8>,
) -> Seq<Seq<u8>> {
    if i == commit_idx {
        seq![dummy_sig(), script, control_block]
    } else {
        seq![dummy_sig()]
    }
}

/// The transaction with its witnesses replaced by the estimation stacks.
pub open spec fn with_estimate_witnesses(
    t: TxV,
    commit_idx: int,
    script: Seq<u8>,
    control_block: Seq<u8>,
) -> TxV {
    TxV {
        input: Seq::new(
            t.input.len(),
            |i: int|
                TxInV {
                    witness: estimate_witness(i, commit_idx, script, control_block),
                    ..t.input[i]
                },
        ),
        ..t
    }
}

/// The sequence number of every reveal input.
pub open spec fn reveal_sequence(etching: bool) -> u32 {
    if etching {
        SEQUENCE_COMMIT_MATURITY
    } else {
        SEQUENCE_RBF
    }
}

/// The reveal transaction skeleton: version 2, lock time 0, the given inputs
/// with empty witnesses, the given outputs.
pub open spec fn skeleton_tx(inputs: Seq<OutPointV>, outputs: Seq<TxOutV>, etching: bool) -> TxV {
    TxV {
        version: 2,
        lock_time: 0,
        input: Seq::new(
            inputs.len(),
            |i: int|
                TxInV {
                    previous_output: inputs[i],
                    sequence: reveal_sequence(etching),
                    witness: Seq::empty(),
                },
        ),
        output: outputs,
    }
}

/// The virtual size the signed reveal is estimated at.
pub open spec fn estimated_reveal_vsize(
    inputs: Seq<OutPointV>,
    outputs: Seq<TxOutV>,
    commit_idx: int,
    script: Seq<u8>,
    control_block: Seq<u8>,
    etching: bool,
) -> nat {
    tx_vsize(
        with_estimate_witnesses(skeleton_tx(inputs, outputs, etching), commit_idx, script, control_block),
    )
}

/// A vector of 64 zero bytes.
fn zero_sig() -> (r: Vec<u8>)
    ensures
        r@ == dummy_sig(),
{
    let mut out: Vec<u8> = Vec::new();
    let mut i: usize = 0;
    while i < 64
        invariant
            0 <= i <= 64,
            out@.len() == i,
            forall|j: int| 0 <= j < i ==> out@[j] == 0u8,
        decreases 64 - i,
    {
        out.push(0u8);
        i = i + 1;
    }
    assert(out@ =~= dummy_sig());
    out
}

impl Plan {
    /// Builds the reveal transaction skeleton for the given inputs and
    /// outputs and the fee it is estimated to need: the fee rate times the
    /// virtual size of the skeleton dressed with estimation witnesses. Fails
    /// only when that product exceeds 64 bits.
    pub fn build_reveal_transaction(
        commit_input_index: usize,
        control_block: &Vec<u8>,
        fee_rate: u64,
        output: Vec<TxOutM>,
        input: Vec<OutPointM>,
        script: &Vec<u8>,
        etching: bool,
    ) -> (r: Result<(TransactionM, u64), BatchError>)
        ensures
            ({
                let inputs = input@.map_values(|o: OutPointM| o@);
                let outputs = output@.map_values(|o: TxOutM| o@);
                let est = estimated_reveal_vsize(
                    inputs,
                    outputs,
                    commit_input_index as int,
                    script@,
                    control_block@,
                    etching,
                );
                &&& (r matches Ok(p) ==> p.0@ == skeleton_tx(inputs, outputs, etching) && p.1
                    == fee_rate * est)
                &&& (r matches Err(e) ==> e == BatchError::ValueOverflow)
                &&& (r is Err <==> fee_rate * est > u64::MAX)
            }),
    {
        let ghost inputs = input@.map_values(|o: OutPointM| o@);
        let ghost outputs = output@.map_values(|o: TxOutM| o@);
        let sequence: u32 = if etching {
            SEQUENCE_COMMIT_MATURITY
        } else {
            SEQUENCE_RBF
        };
        let mut txins: Vec<TxInM> = Vec::new();
        let mut dummy_ins: Vec<TxInM> = Vec::new();
        let mut i: usize = 0;
        while i < input.len()
            invariant
                0 <= i <= input@.len(),
                inputs == input@.map_values(|o: OutPointM| o@),
                inputs.len() == input@.len(),
                sequence == reveal_sequence(etching),
                txins@.len() == i,
                dummy_ins@.len() == i,
                forall|j: int|
                    0 <= j < i ==> #[trigger] txins@[j]@ == (TxInV {
                        previous_output: inputs[j],
                        sequence: reveal_sequence(etching),
                        witness: Seq::empty(),
                    }),
                forall|j: int|
                    0 <= j < i ==> #[trigger] dummy_ins@[j]@ == (TxInV {
                        previous_output: inputs[j],
                        sequence: reveal_sequence(etching),
                        witness: estimate_witness(
                            j,
                            commit_input_index as int,
                            script@,
                            control_block@,
                        ),
                    }),
            decreases input@.len() - i,
        {
            let op = &input[i];
            txins.push(
                TxInM {
                    previous_output: OutPointM {
                        txid: crate::bytes::clone_bytes(&op.txid),
                        vout: op.vout,
                    },
                    sequence,
                    witness: Vec::new(),
                },
            );
            let mut witness: Vec<Vec<u8>> = Vec::new();
            witness.push(zero_sig());
            if i == commit_input_index {
                witness.push(crate::bytes::clone_bytes(script));
                witness.push(crate::bytes::clone_bytes(control_block));
            }
            dummy_ins.push(
                TxInM {
                    previous_output: OutPointM {
                        txid: crate::bytes::clone_bytes(&op.txid),
                        vout: op.vout,
                    },
                    sequence,
                    witness,
                },
            );
            proof {
                assert(inputs[i as int] == input@[i as int]@);
                assert(txins@[i as int]@.witness =~= Seq::<Seq<u8>>::empty());
                assert(txins@[i as int]@ == (TxInV {
                    previous_output: inputs[i as int],
                    sequence: reveal_sequence(etching),
                    witness: Seq::empty(),
                }));
                if i == commit_input_index {
                    assert(dummy_ins@[i as int]@.witness =~= estimate_witness(
                        i as int,
                        commit_input_index as int,
                        script@,
                        control_block@,
                    ));
                } else {
                    assert(dummy_ins@[i as int]@.witness =~= estimate_witness(
                        i as int,
                        commit_input_index as int,
                        script@,
                        control_block@,
                    ));
                }
                assert(dummy_ins@[i as int]@ == (TxInV {
                    previous_output: inputs[i as int],
                    sequence: reveal_sequence(etching),
                    witness: estimate_witness(
                        i as int,
                        commit_input_index as int,
                        script@,
                        control_block@,
                    ),
                }));
            }
            i = i + 1;
        }
        let mut dummy_outs: Vec<TxOutM> = Vec::new();
        let mut k: usize = 0;
        while k < output.len()
            invariant
                0 <= k <= output@.len(),
                outputs == output@.map_values(|o: TxOutM| o@),
                outputs.len() == output@.len(),
                dummy_outs@.len() == k,
                forall|j: int| 0 <= j < k ==> #[trigger] dummy_outs@[j]@ == outputs[j],
            decreases output@.len() - k,
        {
            let o = &output[k];
            dummy_outs.push(
                TxOutM {
                    value: o.value,
                    script_pubkey: crate::bytes::clone_bytes(&o.script_pubkey),
                },
            );
            proof {
                assert(outputs[k as int] == output@[k as int]@);
            }
            k = k + 1;
        }
        let reveal_tx = TransactionM { version: 2, lock_time: 0, input: txins, output };
        let dummy_tx = TransactionM { version: 2, lock_time: 0, input: dummy_ins, output: dummy_outs };
        proof {
            assert(reveal_tx@.input =~= skeleton_tx(inputs, outputs, etching).input);
            assert(reveal_tx@.output =~= outputs);
            assert(reveal_tx@ == skeleton_tx(inputs, outputs, etching));
            assert(dummy_tx@.input =~= with_estimate_witnesses(
                skeleton_tx(inputs, outputs, etching),
                commit_input_index as int,
                script@,
                control_block@,
            ).input);
            assert(dummy_tx@.output =~= outputs);
            assert(dummy_tx@ == with_estimate_witnesses(
                skeleton_tx(inputs, outputs, etching),
                commit_input_index as int,
                script@,
                control_block@,
            ));
        }
        let vsize = crate::tx::compute_vsize(&dummy_tx);
        let fee = match fee_rate.checked_mul(vsize) {
            Some(fee) => fee,
            None => {
                return Err(BatchError::ValueOverflow);
            },
        };
        Ok((reveal_tx, fee))
    }
}

/// The value of `op` among the given unspent outputs: the first entry with a
/// matching outpoint, if any.
pub open spec fn find_value(utxos: Seq<(OutPointV, TxOutV)>, op: OutPointV) -> Option<u64>
    decreases utxos.len(),
{
    if utxos.len() == 0 {
        None
    } else if utxos[0].0 == op {
        Some(utxos[0].1.value)
    } else {
        find_value(utxos.drop_first(), op)
    }
}

/// The summed value of the outputs a transaction spends; an input whose
/// outpoint is unknown contributes nothing.
pub open spec fn inputs_value(ins: Seq<TxInV>, utxos: Seq<(OutPointV, TxOutV)>) -> int
    decreases ins.len(),
{
    if ins.len() == 0 {
        0
    } else {
        (match find_value(utxos, ins[0].previous_output) {
            Some(v) => v as int,
            None => 0,
        }) + inputs_value(ins.drop_first(), utxos)
    }
}

/// The summed value of a transaction's outputs.
pub open spec fn outputs_value(outs: Seq<TxOutV>) -> int
    decreases outs.len(),
{
    if outs.len() == 0 {
        0
    } else {
        outs[0].value + outputs_value(outs.drop_first())
    }
}

/// Whether every input of the list spends a known output.
pub open spec fn all_inputs_known(ins: Seq<TxInV>, utxos: Seq<(OutPointV, TxOutV)>) -> bool {
    forall|i: int|
        0 <= i < ins.len() ==> find_value(utxos, (#[trigger] ins[i]).previous_output) is Some
}

pub open spec fn utxos_view(utxos: Seq<(OutPointM, TxOutM)>) -> Seq<(OutPointV, TxOutV)> {
    utxos.map_values(|p: (OutPointM, TxOutM)| (p.0@, p.1@))
}

/// Finds the value of the output `op` spends, scanning in order.
fn find_utxo_value(utxos: &Vec<(OutPointM, TxOutM)>, op: &OutPointM) -> (r: Option<u64>)
    ensures
        r == find_value(utxos_view(utxos@), op@),
{
    let ghost uv = utxos_view(utxos@);
    let mut i: usize = 0;
    assert(uv.skip(0) =~= uv);
    while i < utxos.len()
        invariant
            0 <= i <= utxos@.len(),
            uv == utxos_view(utxos@),
            uv.len() == utxos@.len(),
            find_value(uv, op@) == find_value(uv.skip(i as int), op@),
        decreases utxos@.len() - i,
    {
        proof {
            assert(uv[i as int] == (utxos@[i as int].0@, utxos@[i as int].1@));
            assert(uv.skip(i as int)[0] == uv[i as int]);
            assert(uv.skip(i as int).drop_first() =~= uv.skip(i + 1));
        }
        let entry = &utxos[i];
        let same = entry.0.vout == op.vout && crate::bytes::bytes_eq(&entry.0.txid, &op.txid);
        if same {
            assert(uv[i as int].0 == op@);
            return Some(entry.1.value);
        }
        assert(uv[i as int].0 != op@);
        i = i + 1;
    }
    proof {
        assert(uv.skip(uv.len() as int) =~= Seq::<(OutPointV, TxOutV)>::empty());
    }
    None
}

proof fn lemma_inputs_value_take(ins: Seq<TxInV>, utxos: Seq<(OutPointV, TxOutV)>, i: int)
    requires
        0 <= i < ins.len(),
    ensures
        inputs_value(ins.take(i + 1), utxos) == inputs_value(ins.take(i), utxos) + (match find_value(
            utxos,
            ins[i].previous_output,
        ) {
            Some(v) => v as int,
            None => 0,
        }),
    decreases i,
{
    if i == 0 {
        assert(ins.take(1).drop_first() =~= Seq::<TxInV>::empty());
        assert(ins.take(0) =~= Seq::<TxInV>::empty());
    } else {
        lemma_inputs_value_take(ins.drop_first(), utxos, i - 1);
        assert(ins.take(i + 1).drop_first() =~= ins.drop_first().take(i));
        assert(ins.take(i).drop_first() =~= ins.drop_first().take(i - 1));
        assert(ins.drop_first()[i - 1] == ins[i]);
    }
}

proof fn lemma_outputs_value_take(outs: Seq<TxOutV>, i: int)
    requires
        0 <= i < outs.len(),
    ensures
        outputs_value(outs.take(i + 1)) == outputs_value(outs.take(i)) + outs[i].value,
    decreases i,
{
    if i == 0 {
        assert(outs.take(1).drop_first() =~= Seq::<TxOutV>::empty());
        assert(outs.take(0) =~= Seq::<TxOutV>::empty());
    } else {
        lemma_outputs_value_take(outs.drop_first(), i - 1);
        assert(outs.take(i + 1).drop_first() =~= outs.drop_first().take(i));
        assert(outs.take(i).drop_first() =~= outs.drop_first().take(i - 1));
        assert(outs.drop_first()[i - 1] == outs[i]);
    }
}

proof fn lemma_inputs_value_nonneg(ins: Seq<TxInV>, utxos: Seq<(OutPointV, TxOutV)>)
    ensures
        inputs_value(ins, utxos) >= 0,
    decreases ins.len(),
{
    if ins.len() > 0 {
        lemma_inputs_value_nonneg(ins.drop_first(), utxos);
    }
}

proof fn lemma_outputs_value_nonneg(outs: Seq<TxOutV>)
    ensures
        outputs_value(outs) >= 0,
    decreases outs.len(),
{
    if outs.len() > 0 {
        lemma_outputs_value_nonneg(outs.drop_first());
    }
}

impl Plan {
    /// The fee a transaction pays: what its inputs spend minus what its
    /// outputs carry. Every input must spend a known output and the
    /// difference must be a 64-bit satoshi amount.
    pub fn calculate_fee(tx: &TransactionM, utxos: &Vec<(OutPointM, TxOutM)>) -> (r: u64)
        requires
            all_inputs_known(tx@.input, utxos_view(utxos@)),
            inputs_value(tx@.input, utxos_view(utxos@)) - outputs_value(tx@.output) <= u64::MAX,
            inputs_value(tx@.input, utxos_view(utxos@)) >= outputs_value(tx@.output),
        ensures
            r == inputs_value(tx@.input, utxos_view(utxos@)) - outputs_value(tx@.output),
    {
        let (input_sum, output_sum) = Plan::sum_tx_values(tx, utxos);
        proof {
            lemma_outputs_value_nonneg(tx@.output);
        }
        (input_sum - output_sum) as u64
    }

    /// The fee with lenient accounting, as the reveal-only resume path uses
    /// it: unknown inputs count as zero and a negative difference becomes
    /// zero. Saturates at the 64-bit maximum.
    pub fn calculate_fee_defaulted(tx: &TransactionM, utxos: &Vec<(OutPointM, TxOutM)>) -> (r: u64)
        ensures
            ({
                let diff = inputs_value(tx@.input, utxos_view(utxos@)) - outputs_value(tx@.output);
                if diff < 0 {
                    r == 0
                } else if diff > u64::MAX {
                    r == u64::MAX
                } else {
                    r == diff
                }
            }),
    {
        let (input_sum, output_sum) = Plan::sum_tx_values(tx, utxos);
        if input_sum < output_sum {
            0
        } else if input_sum - output_sum > u64::MAX as u128 {
            u64::MAX
        } else {
            (input_sum - output_sum) as u64
        }
    }

    /// Sums what the inputs spend (unknown inputs as zero) and what the
    /// outputs carry.
    fn sum_tx_values(tx: &TransactionM, utxos: &Vec<(OutPointM, TxOutM)>) -> (r: (u128, u128))
        ensures
            r.0 == inputs_value(tx@.input, utxos_view(utxos@)),
            r.1 == outputs_value(tx@.output),
    {
        let ghost uv = utxos_view(utxos@);
        let mut input_sum: u128 = 0;
        let mut i: usize = 0;
        proof {
            assert(tx@.input.take(0) =~= Seq::<TxInV>::empty());
        }
        while i < tx.input.len()
            invariant
                0 <= i <= tx.input@.len(),
                uv == utxos_view(utxos@),
                tx@.input.len() == tx.input@.len(),
                input_sum == inputs_value(tx@.input.take(i as int), uv),
                input_sum <= i * (u64::MAX as int),
            decreases tx.input@.len() - i,
        {
            proof {
                lemma_inputs_value_take(tx@.input, uv, i as int);
                assert(tx@.input[i as int] == tx.input@[i as int]@);
            }
            let v = match find_utxo_value(utxos, &tx.input[i].previous_output) {
                Some(v) => v,
                None => 0,
            };
            proof {
                assert((i + 1) * (u64::MAX as int) == i * (u64::MAX as int) + u64::MAX);
            }
            input_sum = input_sum + v as u128;
            i = i + 1;
        }
        proof {
            assert(tx@.input.take(tx@.input.len() as int) =~= tx@.input);
            assert(tx@.output.take(0) =~= Seq::<TxOutV>::empty());
        }
        let mut output_sum: u128 = 0;
        let mut k: usize = 0;
        while k < tx.output.len()
            invariant
                0 <= k <= tx.output@.len(),
                tx@.output.len() == tx.output@.len(),
                output_sum == outputs_value(tx@.output.take(k as int)),
                output_sum <= k * (u64::MAX as int),
            decreases tx.output@.len() - k,
        {
            proof {
                lemma_outputs_value_take(tx@.output, k as int);
                assert(tx@.output[k as int] == tx.output@[k as int]@);
                assert((k + 1) * (u64::MAX as int) == k * (u64::MAX as int) + u64::MAX);
            }
            output_sum = output_sum + tx.output[k].value as u128;
            k = k + 1;
        }
        proof {
            assert(tx@.output.take(tx@.output.len() as int) =~= tx@.output);
        }
        (input_sum, output_sum)
    }
}

/// The reveal with every input signed: a 64-byte signature per input, plus
/// the leaf script and control block on the commit input.
pub open spec fn all_signed_witnesses(
    t: TxV,
    idx: int,
    script: Seq<u8>,
    control_block: Seq<u8>,
    sigs: Seq<Seq<u8>>,
) -> TxV {
    TxV {
        input: Seq::new(
            t.input.len(),
            |i: int|
                TxInV {
                    witness: if i == idx {
                        seq![sigs[i], script, control_block]
                    } else {
                        seq![sigs[i]]
                    },
                    ..t.input[i]
                },
        ),
        ..t
    }
}

/// Law: the fee estimate is exact. Whatever 64-byte Schnorr signatures end
/// up on the inputs, the fully signed reveal has exactly the virtual size
/// the estimate assumed, so the estimated fee equals the signed fee at the
/// same rate.
pub proof fn lemma_fee_estimate_exact(
    inputs: Seq<OutPointV>,
    outputs: Seq<TxOutV>,
    idx: int,
    script: Seq<u8>,
    control_block: Seq<u8>,
    etching: bool,
    sigs: Seq<Seq<u8>>,
)
    requires
        sigs.len() == inputs.len(),
        forall|i: int| 0 <= i < sigs.len() ==> (#[trigger] sigs[i]).len() == 64,
        0 <= idx < inputs.len(),
    ensures
        tx_vsize(
            all_signed_witnesses(skeleton_tx(inputs, outputs, etching), idx, script, control_block, sigs),
        ) == estimated_reveal_vsize(inputs, outputs, idx, script, control_block, etching),
{
    let base = skeleton_tx(inputs, outputs, etching);
    let signed = all_signed_witnesses(base, idx, script, control_block, sigs);
    let estimate = with_estimate_witnesses(base, idx, script, control_block);
    assert(dummy_sig().len() == 64);
    crate::tx::lemma_tx_weight_witness_lengths(signed, estimate);
}

/// The estimate depends on the leaf script and control block only through
/// their lengths, and on the inputs only through their count and txid
/// lengths: all key material of the same size gives the same estimate.
pub proof fn lemma_estimate_shape(
    inputs1: Seq<OutPointV>,
    inputs2: Seq<OutPointV>,
    outputs: Seq<TxOutV>,
    idx: int,
    script1: Seq<u8>,
    control_block1: Seq<u8>,
    script2: Seq<u8>,
    control_block2: Seq<u8>,
    etching: bool,
)
    requires
        inputs1.len() == inputs2.len(),
        forall|i: int| 0 <= i < inputs1.len() ==> (#[trigger] inputs1[i]).txid.len() == inputs2[i].txid.len(),
        script1.len() == script2.len(),
        control_block1.len() == control_block2.len(),
    ensures
        estimated_reveal_vsize(inputs1, outputs, idx, script1, control_block1, etching)
            == estimated_reveal_vsize(inputs2, outputs, idx, script2, control_block2, etching),
{
    let t1 = with_estimate_witnesses(skeleton_tx(inputs1, outputs, etching), idx, script1, control_block1);
    let t2 = with_estimate_witnesses(skeleton_tx(inputs2, outputs, etching), idx, script2, control_block2);
    assert forall|i: int, j: int|
        0 <= i < t1.input.len() && 0 <= j < t1.input[i].witness.len() implies (#[trigger] t1.input[i].witness[j]).len()
        == t2.input[i].witness[j].len() by {
        assert(t1.input[i].witness == estimate_witness(i, idx, script1, control_block1));
        assert(t2.input[i].witness == estimate_witness(i, idx, script2, control_block2));
    }
    crate::tx::lemma_tx_weight_shape(t1, t2);
}

/// What a transaction spends depends only on its inputs' outpoints, not on
/// their witnesses or sequence numbers.
pub proof fn lemma_inputs_value_prevouts(
    s1: Seq<TxInV>,
    s2: Seq<TxInV>,
    uv: Seq<(OutPointV, TxOutV)>,
)
    requires
        s1.len() == s2.len(),
        forall|i: int|
            0 <= i < s1.len() ==> (#[trigger] s1[i]).previous_output == s2[i].previous_output,
    ensures
        inputs_value(s1, uv) == inputs_value(s2, uv),
    decreases s1.len(),
{
    if s1.len() > 0 {
        assert(s1[0].previous_output == s2[0].previous_output);
        assert(forall|i: int|
            0 <= i < s1.drop_first().len() ==> (#[trigger] s1.drop_first()[i]).previous_output
                == s2.drop_first()[i].previous_output);
        lemma_inputs_value_prevouts(s1.drop_first(), s2.drop_first(), uv);
    }
}

} // verus!
