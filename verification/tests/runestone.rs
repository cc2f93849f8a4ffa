// The etched runestone: the reveal's OP_RETURN output deciphers, through the
// ordinals crate itself, to exactly the planned runestone.

use ord_core::plan::{BatchError, Mode, Plan};
use ord_core::runes::{EtchingM, SpacedRuneM, TermsM};
use ord_core::taproot::Network;

fn p2tr_like_script(byte: u8) -> Vec<u8> {
    let mut script = vec![0x51, 0x20];
    script.extend(std::iter::repeat(byte).take(32));
    script
}

fn inscription() -> ord_core::envelope::Inscription {
    ord_core::envelope::Inscription {
        body: Some(b"a".to_vec()),
        content_type: Some(b"text/plain;charset=utf-8".to_vec()),
        content_encoding: None,
        delegate: None,
        metadata: None,
        metaprotocol: None,
        parents: Vec::new(),
        pointer: None,
        rune: Some(99_999),
    }
}

fn etching_plan(etching: EtchingM) -> Plan {
    Plan {
        commit_fee_rate: 1,
        destinations: vec![p2tr_like_script(0xaa)],
        dry_run: false,
        etching: Some(etching),
        inscriptions: vec![inscription()],
        mode: Mode::SeparateOutputs,
        no_backup: false,
        no_limit: false,
        parent_info: None,
        postages: vec![10_000],
        reinscribe: false,
        reveal_fee_rate: 1,
        reveal_satpoints: Vec::new(),
        satpoint: None,
    }
}

#[test]
fn reveal_runestone_deciphers_to_the_planned_one() {
    let plan = etching_plan(EtchingM {
        divisibility: 2,
        premine: 1_000,
        rune: SpacedRuneM {
            rune: 99_999,
            spacers: 0,
        },
        symbol: 'X',
        terms: None,
        turbo: false,
    });
    let change = p2tr_like_script(0xbb);
    let req = plan
        .create_commit_request(Network::Regtest, &change)
        .unwrap();

    // Outputs: destination, premine to the change script, runestone.
    assert_eq!(req.reveal_outputs.len(), 3);
    assert_eq!(req.rune_vout, Some(1));
    assert_eq!(req.reveal_outputs[1].value, 10_000);
    assert_eq!(req.reveal_outputs[1].script_pubkey, change);
    assert_eq!(req.reveal_outputs[2].value, 0);

    let tx = bitcoin::Transaction {
        version: 2,
        lock_time: bitcoin::absolute::LockTime::ZERO,
        input: Vec::new(),
        output: req
            .reveal_outputs
            .iter()
            .map(|o| bitcoin::TxOut {
                value: o.value,
                script_pubkey: bitcoin::ScriptBuf::from_bytes(o.script_pubkey.clone()),
            })
            .collect(),
    };
    let artifact = ordinals::Runestone::decipher(&tx).expect("runestone present");
    let expected = ordinals::Runestone {
        edicts: Vec::new(),
        etching: Some(ordinals::Etching {
            divisibility: Some(2),
            premine: Some(1_000),
            rune: Some(ordinals::Rune(99_999)),
            spacers: None,
            symbol: Some('X'),
            terms: None,
            turbo: false,
        }),
        mint: None,
        pointer: Some(1),
    };
    assert_eq!(artifact, ordinals::Artifact::Runestone(expected));
}

#[test]
fn etching_without_premine_has_no_premine_output() {
    let plan = etching_plan(EtchingM {
        divisibility: 0,
        premine: 0,
        rune: SpacedRuneM {
            rune: 1234,
            spacers: 0b10,
        },
        symbol: 'Y',
        terms: Some(TermsM {
            amount: 50,
            cap: 10,
            height_start: Some(100),
            height_end: Some(200),
            offset_start: None,
            offset_end: None,
        }),
        turbo: true,
    });
    let change = p2tr_like_script(0xbb);
    let req = plan
        .create_commit_request(Network::Regtest, &change)
        .unwrap();
    // Outputs: destination and runestone only.
    assert_eq!(req.reveal_outputs.len(), 2);
    assert_eq!(req.rune_vout, None);
    let tx = bitcoin::Transaction {
        version: 2,
        lock_time: bitcoin::absolute::LockTime::ZERO,
        input: Vec::new(),
        output: req
            .reveal_outputs
            .iter()
            .map(|o| bitcoin::TxOut {
                value: o.value,
                script_pubkey: bitcoin::ScriptBuf::from_bytes(o.script_pubkey.clone()),
            })
            .collect(),
    };
    let artifact = ordinals::Runestone::decipher(&tx).expect("runestone present");
    let expected = ordinals::Runestone {
        edicts: Vec::new(),
        etching: Some(ordinals::Etching {
            divisibility: None,
            premine: None,
            rune: Some(ordinals::Rune(1234)),
            spacers: Some(0b10),
            symbol: Some('Y'),
            terms: Some(ordinals::Terms {
                amount: Some(50),
                cap: Some(10),
                height: (Some(100), Some(200)),
                offset: (None, None),
            }),
            turbo: true,
        }),
        mint: None,
        pointer: None,
    };
    assert_eq!(artifact, ordinals::Artifact::Runestone(expected));
}

#[test]
fn oversize_runestone_is_rejected() {
    let plan = etching_plan(EtchingM {
        divisibility: 38,
        premine: u128::MAX / 2,
        rune: SpacedRuneM {
            rune: u128::MAX / 2,
            spacers: 0x7ff_ffff,
        },
        symbol: 'Z',
        terms: Some(TermsM {
            amount: u128::MAX / 2,
            cap: u128::MAX / 2,
            height_start: Some(u64::MAX / 2),
            height_end: Some(u64::MAX / 2),
            offset_start: Some(u64::MAX / 2),
            offset_end: Some(u64::MAX / 2),
        }),
        turbo: true,
    });
    let change = p2tr_like_script(0xbb);
    let result = plan.create_commit_request(Network::Regtest, &change);
    match result {
        Err(BatchError::RunestoneTooLarge { len }) => assert!(len > 82),
        other => panic!("expected oversize runestone, got {:?}", other.is_ok()),
    }
}
