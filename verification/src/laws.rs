//! The engine's cross-function laws, stated on their own so a reader finds
//! them in one place. Each is proved from the contracts of the functions it
//! speaks about; the laws about the fee estimate, the idempotent reveal and
//! the envelope round trip stand beside those functions in `plan`, `flow`
//! and `decode`.

use vstd::prelude::*;
use crate::flow::{
    batch_transactions_ok, dust_ok, resumed_reveal_ok, CommitRequest, RevealResume, TaprootData,
    Transactions,
};
use crate::plan::{Plan, MAX_STANDARD_TX_WEIGHT};
use crate::runes::runestone_key;
use crate::script::{dust_value, p2tr_script};
use crate::taproot::{network_id, p2tr_address_of, xonly_of, Network};
use crate::tx::{ser_tx, tx_weight, TransactionM, OutPointV};

verus! {

/// Law: a completed batch respects standardness. Every output of the reveal
/// transaction is at or above its script's dust threshold, and unless the
/// plan lifted the limit, the reveal's weight is at most the standard
/// maximum.
pub proof fn lemma_reveal_standardness(
    plan: Plan,
    req: CommitRequest,
    commit_tx: TransactionM,
    utxos: Seq<(crate::tx::OutPointM, crate::tx::TxOutM)>,
    t: Transactions,
    state: TaprootData,
)
    requires
        batch_transactions_ok(plan, req, commit_tx, utxos, t, state),
    ensures
        dust_ok(req.reveal_outputs@.map_values(|o: crate::tx::TxOutM| o@)),
        forall|j: int|
            0 <= j < t.reveal_tx@.output.len() ==> (#[trigger] t.reveal_tx@.output[j]).value
                >= dust_value(t.reveal_tx@.output[j].script_pubkey),
        !plan.no_limit ==> tx_weight(t.reveal_tx@) <= MAX_STANDARD_TX_WEIGHT,
{
    let outputs = req.reveal_outputs@.map_values(|o: crate::tx::TxOutM| o@);
    assert(t.reveal_tx@.output == outputs);
}

/// Law: the commit and the reveal are cryptographically bound. The P2TR
/// address derived from the persisted tweaked key equals the recorded commit
/// address, the commit output found pays to that key's script, and the
/// reveal's commit input references exactly that output of the commit
/// transaction.
pub proof fn lemma_commit_reveal_binding(
    state: TaprootData,
    commit_tx: TransactionM,
    destination: Vec<u8>,
    postage: u64,
    network: Network,
    rr: RevealResume,
)
    requires
        resumed_reveal_ok(state, commit_tx, destination, postage, network, rr),
    ensures
        state.taproot_address@ == p2tr_address_of(
            xonly_of(state.tweaked_secret@),
            network_id(network),
        ),
        commit_tx@.output[rr.commit_vout as int].script_pubkey == p2tr_script(
            xonly_of(state.tweaked_secret@),
        ),
        rr.reveal_tx@.input[0].previous_output == (OutPointV {
            txid: crate::taproot::sha256d_of(ser_tx(commit_tx@, false)),
            vout: rr.commit_vout as u32,
        }),
{
}

/// Law: when the plan etches a rune, the reveal carries the planned
/// runestone, byte for byte, as its last output, an `OP_RETURN` of value
/// zero. What those bytes decipher to is the `ordinals` crate's own round
/// trip, exercised by the suite against that crate.
pub proof fn lemma_reveal_carries_runestone(
    plan: Plan,
    network: Network,
    reveal_change: Seq<u8>,
    req: CommitRequest,
    commit_tx: TransactionM,
    utxos: Seq<(crate::tx::OutPointM, crate::tx::TxOutM)>,
    t: Transactions,
    state: TaprootData,
)
    requires
        crate::flow::commit_request_ok(plan, network, reveal_change, req),
        batch_transactions_ok(plan, req, commit_tx, utxos, t, state),
        plan.etching is Some,
    ensures
        t.reveal_tx@.output.len() > 0,
        t.reveal_tx@.output.last().value == 0,
        t.reveal_tx@.output.last().script_pubkey == crate::flow::planned_runestone_bytes(
            plan.etching->Some_0,
            ((if plan.parent_info is Some {
                1int
            } else {
                0int
            }) + plan.destinations@.len()) as nat,
        ),
{
    let outputs = req.reveal_outputs@.map_values(|o: crate::tx::TxOutM| o@);
    let expected = crate::flow::expected_reveal_outputs(
        plan.parent_info,
        plan.mode,
        plan.destinations@,
        plan.postages@,
        plan.etching,
        reveal_change,
    );
    assert(outputs == expected);
    assert(t.reveal_tx@.output == outputs);
    assert(expected.len() > 0);
    assert(expected.last().value == 0);
}

/// Law: the fee estimate is exact end to end. The commit outpoint bound into
/// the reveal has a 32-byte txid like the placeholder it replaces, so the
/// binding leaves the estimate unchanged; and once every input carries a
/// 64-byte signature, the signed reveal's virtual size equals the request's
/// estimate, so the estimated fee is the signed fee at the same rate. The
/// txid-length premise holds of every value the double-SHA256 wrapper
/// returns.
pub proof fn lemma_signed_fee_matches_estimate(
    plan: Plan,
    network: Network,
    reveal_change: Seq<u8>,
    req: CommitRequest,
    commit_tx: TransactionM,
    utxos: Seq<(crate::tx::OutPointM, crate::tx::TxOutM)>,
    t: Transactions,
    state: TaprootData,
    sigs: Seq<Seq<u8>>,
)
    requires
        crate::flow::commit_request_ok(plan, network, reveal_change, req),
        batch_transactions_ok(plan, req, commit_tx, utxos, t, state),
        crate::taproot::sha256d_of(ser_tx(commit_tx@, false)).len() == 32,
        sigs.len() == req.reveal_inputs@.len(),
        forall|i: int| 0 <= i < sigs.len() ==> (#[trigger] sigs[i]).len() == 64,
    ensures
        plan.reveal_fee_rate * crate::tx::tx_vsize(
            crate::plan::all_signed_witnesses(
                crate::plan::skeleton_tx(
                    req.reveal_inputs@.map_values(|o: crate::tx::OutPointM| o@).update(
                        req.commit_input_index as int,
                        OutPointV {
                            txid: crate::taproot::sha256d_of(ser_tx(commit_tx@, false)),
                            vout: t.commit_vout as u32,
                        },
                    ),
                    req.reveal_outputs@.map_values(|o: crate::tx::TxOutM| o@),
                    req.runestone is Some,
                ),
                req.commit_input_index as int,
                req.state.reveal_script@,
                req.state.control_block@,
                sigs,
            ),
        ) == req.reveal_fee,
{
    let inputs = req.reveal_inputs@.map_values(|o: crate::tx::OutPointM| o@);
    let idx = req.commit_input_index as int;
    let commit_op = OutPointV {
        txid: crate::taproot::sha256d_of(ser_tx(commit_tx@, false)),
        vout: t.commit_vout as u32,
    };
    let bound = inputs.update(idx, commit_op);
    let outputs = req.reveal_outputs@.map_values(|o: crate::tx::TxOutM| o@);
    let script = req.state.reveal_script@;
    let control_block = req.state.control_block@;
    let etching = req.runestone is Some;
    // The placeholder the binding replaces also carries a 32-byte txid.
    assert(inputs[idx] == crate::flow::null_outpoint());
    assert(inputs[idx].txid.len() == 32);
    assert forall|i: int| 0 <= i < bound.len() implies (#[trigger] bound[i]).txid.len()
        == inputs[i].txid.len() by {
        if i != idx {
            assert(bound[i] == inputs[i]);
        }
    }
    crate::plan::lemma_estimate_shape(
        bound,
        inputs,
        outputs,
        idx,
        script,
        control_block,
        script,
        control_block,
        etching,
    );
    assert(etching == (plan.etching is Some));
    crate::plan::lemma_fee_estimate_exact(
        bound,
        outputs,
        idx,
        script,
        control_block,
        etching,
        sigs,
    );
}

} // verus!
