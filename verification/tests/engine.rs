// End-to-end scenarios of the inscribe engine: commit preparation, batch
// completion, the dry-run record, the resumed reveal, and the runestone.

use ord_core::envelope::Inscription;
use ord_core::flow;
use ord_core::plan::{BatchError, Mode, ParentInfo, Plan, SatPointM};
use ord_core::taproot::Network;
use ord_core::tx::{compute_vsize, compute_weight, serialize_tx, OutPointM, TransactionM, TxInM, TxOutM};

fn p2tr_like_script(byte: u8) -> Vec<u8> {
    let mut script = vec![0x51, 0x20];
    script.extend(std::iter::repeat(byte).take(32));
    script
}

fn simple_inscription(body: &[u8], content_type: &[u8]) -> Inscription {
    Inscription {
        body: Some(body.to_vec()),
        content_type: Some(content_type.to_vec()),
        content_encoding: None,
        delegate: None,
        metadata: None,
        metaprotocol: None,
        parents: Vec::new(),
        pointer: None,
        rune: None,
    }
}

fn plan_with(
    mode: Mode,
    inscriptions: Vec<Inscription>,
    destinations: Vec<Vec<u8>>,
    postages: Vec<u64>,
) -> Plan {
    Plan {
        commit_fee_rate: 1,
        destinations,
        dry_run: false,
        etching: None,
        inscriptions,
        mode,
        no_backup: false,
        no_limit: false,
        parent_info: None,
        postages,
        reinscribe: false,
        reveal_fee_rate: 1,
        reveal_satpoints: Vec::new(),
        satpoint: None,
    }
}

fn commit_for(target_value: u64, commit_script: &[u8]) -> TransactionM {
    TransactionM {
        version: 2,
        lock_time: 0,
        input: vec![TxInM {
            previous_output: OutPointM {
                txid: vec![7u8; 32],
                vout: 0,
            },
            sequence: 0xFFFF_FFFD,
            witness: Vec::new(),
        }],
        output: vec![TxOutM {
            value: target_value,
            script_pubkey: commit_script.to_vec(),
        }],
    }
}

#[test]
fn single_inscription_separate_outputs() {
    let plan = plan_with(
        Mode::SeparateOutputs,
        vec![simple_inscription(b"a", b"text/plain;charset=utf-8")],
        vec![p2tr_like_script(0xaa)],
        vec![10_000],
    );
    let change = p2tr_like_script(0xbb);
    let req = plan
        .create_commit_request(Network::Regtest, &change)
        .unwrap();
    let target_value = req.target_value;
    let commit_script = req.commit_script.clone();
    let commit_tx = commit_for(target_value, &commit_script);
    let utxos = Vec::new();
    let (txs, state) = plan
        .create_batch_transactions(req, commit_tx, &utxos)
        .unwrap();

    assert_eq!(txs.reveal_tx.input.len(), 1);
    assert_eq!(txs.reveal_tx.output.len(), 1);
    assert_eq!(txs.reveal_tx.output[0].value, 10_000);
    assert_eq!(txs.reveal_tx.output[0].script_pubkey, p2tr_like_script(0xaa));
    assert_eq!(txs.commit_vout, 0);

    // Witness stack: signature, leaf script, control block.
    let witness = &txs.reveal_tx.input[0].witness;
    assert_eq!(witness.len(), 3);
    assert_eq!(witness[0].len(), 64);
    assert_eq!(witness[1], state.reveal_script);
    assert_eq!(witness[2], state.control_block);

    // The commit output funds postage plus the reveal fee, which at a fee
    // rate of one sat/vbyte is exactly the signed reveal's virtual size.
    let vsize = compute_vsize(&txs.reveal_tx);
    assert_eq!(target_value, 10_000 + vsize);
    assert_eq!(txs.total_fees, vsize);

    // Standardness: weight within the limit, output above dust.
    assert!(compute_weight(&txs.reveal_tx) <= 400_000);
    assert!(txs.reveal_tx.output[0].value as u128 >= 330);
}

#[test]
fn two_inscriptions_shared_output() {
    let plan = plan_with(
        Mode::SharedOutput,
        vec![
            simple_inscription(b"a", b"text/plain;charset=utf-8"),
            simple_inscription(b"b", b"text/plain;charset=utf-8"),
        ],
        vec![p2tr_like_script(0xaa)],
        vec![10_000, 12_000],
    );
    let change = p2tr_like_script(0xbb);
    let req = plan
        .create_commit_request(Network::Regtest, &change)
        .unwrap();
    let commit_tx = commit_for(req.target_value, &req.commit_script.clone());
    let (txs, _state) = plan
        .create_batch_transactions(req, commit_tx, &Vec::new())
        .unwrap();
    assert_eq!(txs.reveal_tx.input.len(), 1);
    assert_eq!(txs.reveal_tx.output.len(), 1);
    assert_eq!(txs.reveal_tx.output[0].value, 22_000);
}

#[test]
fn same_sat_two_inscriptions() {
    let plan = plan_with(
        Mode::SameSat,
        vec![
            simple_inscription(b"a", b"text/plain;charset=utf-8"),
            simple_inscription(b"b", b"text/plain;charset=utf-8"),
        ],
        vec![p2tr_like_script(0xaa)],
        vec![10_000],
    );
    let change = p2tr_like_script(0xbb);
    let req = plan
        .create_commit_request(Network::Regtest, &change)
        .unwrap();
    let commit_tx = commit_for(req.target_value, &req.commit_script.clone());
    let (txs, state) = plan
        .create_batch_transactions(req, commit_tx, &Vec::new())
        .unwrap();
    assert_eq!(txs.reveal_tx.output.len(), 1);
    assert_eq!(txs.reveal_tx.output[0].value, 10_000);

    // Both envelopes sit in the single leaf script, in batch order.
    let envelope_header = [0x00u8, 0x63, 0x03, 0x6f, 0x72, 0x64];
    let count = state
        .reveal_script
        .windows(envelope_header.len())
        .filter(|w| *w == envelope_header)
        .count();
    assert_eq!(count, 2);
}

#[test]
fn parent_and_child() {
    let parent_id = ord_core::envelope::InscriptionId {
        txid: vec![3u8; 32],
        index: 0,
    };
    let mut child = simple_inscription(b"a", b"text/plain;charset=utf-8");
    child.parents = vec![ord_core::envelope::InscriptionId {
        txid: vec![3u8; 32],
        index: 0,
    }];
    let parent_outpoint = OutPointM {
        txid: vec![3u8; 32],
        vout: 1,
    };
    let mut plan = plan_with(
        Mode::SeparateOutputs,
        vec![child],
        vec![p2tr_like_script(0xaa)],
        vec![10_000],
    );
    plan.parent_info = Some(ParentInfo {
        id: parent_id,
        location: SatPointM {
            outpoint: OutPointM {
                txid: vec![3u8; 32],
                vout: 1,
            },
            offset: 0,
        },
        destination: p2tr_like_script(0xcc),
        tx_out: TxOutM {
            value: 5_000,
            script_pubkey: p2tr_like_script(0xdd),
        },
    });
    let change = p2tr_like_script(0xbb);
    let req = plan
        .create_commit_request(Network::Regtest, &change)
        .unwrap();
    assert_eq!(req.commit_input_index, 1);
    let commit_tx = commit_for(req.target_value, &req.commit_script.clone());
    let (txs, _state) = plan
        .create_batch_transactions(req, commit_tx, &Vec::new())
        .unwrap();

    assert_eq!(txs.reveal_tx.input.len(), 2);
    assert_eq!(txs.reveal_tx.output.len(), 2);
    // The parent's outpoint leads, going back to the parent's destination at
    // its current value; the commit outpoint follows, funding the child.
    assert_eq!(
        txs.reveal_tx.input[0].previous_output.txid,
        parent_outpoint.txid
    );
    assert_eq!(txs.reveal_tx.input[0].previous_output.vout, 1);
    assert_eq!(txs.reveal_tx.output[0].value, 5_000);
    assert_eq!(txs.reveal_tx.output[0].script_pubkey, p2tr_like_script(0xcc));
    assert_eq!(txs.reveal_tx.output[1].value, 10_000);
    assert_eq!(txs.reveal_tx.output[1].script_pubkey, p2tr_like_script(0xaa));
    // The commit input spends the commit transaction's matching output.
    let commit_txid_ref = &txs.reveal_tx.input[1].previous_output;
    assert_eq!(commit_txid_ref.vout as usize, txs.commit_vout);
    // Only the commit input carries a witness before wallet signing.
    assert_eq!(txs.reveal_tx.input[0].witness.len(), 0);
    assert_eq!(txs.reveal_tx.input[1].witness.len(), 3);
}

#[test]
fn dry_run_record_has_both_psbts() {
    let mut plan = plan_with(
        Mode::SeparateOutputs,
        vec![simple_inscription(b"a", b"text/plain;charset=utf-8")],
        vec![p2tr_like_script(0xaa)],
        vec![10_000],
    );
    plan.dry_run = true;
    let change = p2tr_like_script(0xbb);
    let req = plan
        .create_commit_request(Network::Regtest, &change)
        .unwrap();
    let commit_tx = commit_for(req.target_value, &req.commit_script.clone());
    let (txs, _state) = plan
        .create_batch_transactions(req, commit_tx, &Vec::new())
        .unwrap();
    let commit_psbt = ord_core::output::unsigned_psbt_base64(txs.commit_tx).unwrap();
    let reveal_psbt = ord_core::output::unsigned_psbt_base64(txs.reveal_tx).unwrap();
    let record = plan.output(
        vec![0u8; 32],
        Some(commit_psbt),
        vec![1u8; 32],
        false,
        Some(reveal_psbt),
        txs.total_fees,
        None,
    );
    assert!(record.commit_psbt.is_some());
    assert!(record.reveal_psbt.is_some());
    assert!(!record.reveal_broadcast);
    assert_eq!(record.inscriptions.len(), 1);
    assert_eq!(record.inscriptions[0].id.index, 0);
    assert_eq!(record.inscriptions[0].location.outpoint.vout, 0);
    assert_eq!(record.inscriptions[0].location.offset, 0);
}

#[test]
fn phase_one_to_phase_two_across_processes() {
    let plan = plan_with(
        Mode::SeparateOutputs,
        vec![simple_inscription(b"a", b"text/plain;charset=utf-8")],
        vec![p2tr_like_script(0xaa)],
        vec![10_000],
    );
    let change = p2tr_like_script(0xbb);
    let req = plan
        .create_commit_request(Network::Regtest, &change)
        .unwrap();
    let target_value = req.target_value;
    let commit_script = req.commit_script.clone();
    let state = req.state;

    // Phase 1 persists the record; a later process loads it back.
    let blob = ord_core::state::encode_state(&state);
    let loaded =
        ord_core::state::decode_state(&blob, state.taproot_address.clone()).expect("decode");
    assert_eq!(loaded.reveal_script, state.reveal_script);
    assert_eq!(loaded.control_block, state.control_block);
    assert_eq!(loaded.untweaked_secret, state.untweaked_secret);
    assert_eq!(loaded.tweaked_secret, state.tweaked_secret);
    assert_eq!(loaded.inscriptions.len(), 1);
    // The encoding round-trips byte for byte.
    assert_eq!(ord_core::state::encode_state(&loaded), blob);

    // The commit is funded externally; Phase 2 rebuilds the reveal from the
    // loaded state, and doing it twice gives byte-identical transactions
    // outside the fresh signature.
    let commit_tx = commit_for(target_value, &commit_script);
    let first = flow::resume_reveal(
        &loaded,
        &commit_tx,
        p2tr_like_script(0xaa),
        10_000,
        1,
        Network::Regtest,
    )
    .unwrap();
    let second = flow::resume_reveal(
        &loaded,
        &commit_tx,
        p2tr_like_script(0xaa),
        10_000,
        1,
        Network::Regtest,
    )
    .unwrap();
    // Signing is deterministic, so the rebuilt reveals are byte-identical,
    // signature included.
    assert_eq!(
        serialize_tx(&first.reveal_tx, true),
        serialize_tx(&second.reveal_tx, true)
    );
    assert_eq!(
        first.reveal_tx.input[0].witness[0],
        second.reveal_tx.input[0].witness[0]
    );
    assert_eq!(first.reveal_tx.input[0].witness[0].len(), 64);
    // The reveal spends the commit output it was resumed against.
    assert_eq!(first.commit_vout, 0);
    assert_eq!(first.reveal_tx.input[0].previous_output.vout, 0);
    // The leaf script and control block come from the persisted state.
    assert_eq!(first.reveal_tx.input[0].witness[1], loaded.reveal_script);
    assert_eq!(first.reveal_tx.input[0].witness[2], loaded.control_block);
}

#[test]
fn corrupt_state_is_rejected() {
    let plan = plan_with(
        Mode::SeparateOutputs,
        vec![simple_inscription(b"a", b"text/plain;charset=utf-8")],
        vec![p2tr_like_script(0xaa)],
        vec![10_000],
    );
    let change = p2tr_like_script(0xbb);
    let req = plan
        .create_commit_request(Network::Regtest, &change)
        .unwrap();
    let blob = ord_core::state::encode_state(&req.state);
    // Truncated blobs and trailing garbage are both refused.
    let truncated = blob[..blob.len() - 1].to_vec();
    assert!(ord_core::state::decode_state(&truncated, String::new()).is_none());
    let mut extended = blob.clone();
    extended.push(0);
    assert!(ord_core::state::decode_state(&extended, String::new()).is_none());
}

#[test]
fn tweaked_key_mismatch_is_caught() {
    let plan = plan_with(
        Mode::SeparateOutputs,
        vec![simple_inscription(b"a", b"text/plain;charset=utf-8")],
        vec![p2tr_like_script(0xaa)],
        vec![10_000],
    );
    let change = p2tr_like_script(0xbb);
    let req = plan
        .create_commit_request(Network::Regtest, &change)
        .unwrap();
    let mut state = req.state;
    // Corrupt the recorded address: the cross-check must fail.
    state.taproot_address = String::from("bcrt1pnothing");
    let commit_tx = commit_for(req.target_value, &req.commit_script);
    let result = flow::resume_reveal(
        &state,
        &commit_tx,
        p2tr_like_script(0xaa),
        10_000,
        1,
        Network::Regtest,
    );
    assert_eq!(result.unwrap_err(), BatchError::TweakedKeyMismatch);
}

#[test]
fn dust_output_is_rejected() {
    let plan = plan_with(
        Mode::SeparateOutputs,
        vec![simple_inscription(b"a", b"text/plain;charset=utf-8")],
        vec![p2tr_like_script(0xaa)],
        vec![100],
    );
    let change = p2tr_like_script(0xbb);
    let req = plan
        .create_commit_request(Network::Regtest, &change)
        .unwrap();
    let commit_tx = commit_for(req.target_value, &req.commit_script.clone());
    let result = plan.create_batch_transactions(req, commit_tx, &Vec::new());
    assert_eq!(result.err(), Some(BatchError::Dust { index: 0 }));
}

#[test]
fn oversize_reveal_is_rejected_unless_unlimited() {
    let big_body = vec![0x42u8; 450_000];
    let plan = plan_with(
        Mode::SeparateOutputs,
        vec![simple_inscription(&big_body, b"application/octet-stream")],
        vec![p2tr_like_script(0xaa)],
        vec![10_000],
    );
    let change = p2tr_like_script(0xbb);
    let req = plan
        .create_commit_request(Network::Regtest, &change)
        .unwrap();
    let commit_tx = commit_for(req.target_value, &req.commit_script.clone());
    let result = plan.create_batch_transactions(req, commit_tx, &Vec::new());
    assert_eq!(result.err(), Some(BatchError::WeightExceeded));

    let mut unlimited = plan_with(
        Mode::SeparateOutputs,
        vec![simple_inscription(&big_body, b"application/octet-stream")],
        vec![p2tr_like_script(0xaa)],
        vec![10_000],
    );
    unlimited.no_limit = true;
    let req = unlimited
        .create_commit_request(Network::Regtest, &change)
        .unwrap();
    let commit_tx = commit_for(req.target_value, &req.commit_script.clone());
    let (txs, _state) = unlimited
        .create_batch_transactions(req, commit_tx, &Vec::new())
        .unwrap();
    assert!(compute_weight(&txs.reveal_tx) > 400_000);
}

#[test]
fn missing_commit_output_is_rejected() {
    let plan = plan_with(
        Mode::SeparateOutputs,
        vec![simple_inscription(b"a", b"text/plain;charset=utf-8")],
        vec![p2tr_like_script(0xaa)],
        vec![10_000],
    );
    let change = p2tr_like_script(0xbb);
    let req = plan
        .create_commit_request(Network::Regtest, &change)
        .unwrap();
    // A commit transaction paying somewhere else entirely.
    let commit_tx = commit_for(req.target_value, &p2tr_like_script(0xee));
    let result = plan.create_batch_transactions(req, commit_tx, &Vec::new());
    assert_eq!(result.err(), Some(BatchError::CommitOutputMissing));
}

#[test]
fn satpoints_mode_spends_the_given_outputs() {
    let mut plan = plan_with(
        Mode::SatPoints,
        vec![simple_inscription(b"a", b"text/plain;charset=utf-8")],
        vec![p2tr_like_script(0xaa)],
        vec![9_000],
    );
    plan.reveal_satpoints = vec![(
        SatPointM {
            outpoint: OutPointM {
                txid: vec![9u8; 32],
                vout: 4,
            },
            offset: 0,
        },
        TxOutM {
            value: 9_000,
            script_pubkey: p2tr_like_script(0xee),
        },
    )];
    let change = p2tr_like_script(0xbb);
    let req = plan
        .create_commit_request(Network::Regtest, &change)
        .unwrap();
    // The commit input follows the satpoint input; postage is not added to
    // the target, since the satpoints already carry the inscribed value.
    assert_eq!(req.commit_input_index, 1);
    assert_eq!(req.target_value, req.reveal_fee);
    let commit_tx = commit_for(req.target_value, &req.commit_script.clone());
    let (txs, _state) = plan
        .create_batch_transactions(req, commit_tx, &Vec::new())
        .unwrap();
    assert_eq!(txs.reveal_tx.input.len(), 2);
    assert_eq!(txs.reveal_tx.input[0].previous_output.txid, vec![9u8; 32]);
    assert_eq!(txs.reveal_tx.input[0].previous_output.vout, 4);
    assert_eq!(txs.reveal_tx.output[0].value, 9_000);
}

#[test]
fn absurd_fee_rate_overflows() {
    let mut plan = plan_with(
        Mode::SeparateOutputs,
        vec![simple_inscription(b"a", b"text/plain;charset=utf-8")],
        vec![p2tr_like_script(0xaa)],
        vec![10_000],
    );
    plan.reveal_fee_rate = u64::MAX;
    let change = p2tr_like_script(0xbb);
    let result = plan.create_commit_request(Network::Regtest, &change);
    assert_eq!(result.err(), Some(BatchError::ValueOverflow));
}
