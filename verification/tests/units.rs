// Unit-level checks: encodings against known byte vectors, the dust rule,
// satpoint selection, the reinscription rules, metadata parsing, and the
// envelope round-tripped through a reference decoder.

use ord_core::envelope::{append_batch_reveal_script, Inscription, InscriptionId};
use ord_core::flow::{check_reinscription, select_satpoint};
use ord_core::meta::{parse_metadata, MetadataError};
use ord_core::plan::{BatchError, Plan, SatPointM};
use ord_core::script::compute_dust_value;
use ord_core::tx::{serialize_tx, OutPointM, TransactionM, TxInM, TxOutM};

#[test]
fn serialization_matches_the_consensus_encoding() {
    // A one-input, one-output transaction, checked against the bitcoin
    // crate's own encoder.
    let tx = TransactionM {
        version: 2,
        lock_time: 0,
        input: vec![TxInM {
            previous_output: OutPointM {
                txid: (0u8..32).collect(),
                vout: 1,
            },
            sequence: 0xFFFF_FFFD,
            witness: vec![vec![0xAB; 64], b"script".to_vec()],
        }],
        output: vec![TxOutM {
            value: 10_000,
            script_pubkey: vec![0x51, 0x20, 0x07],
        }],
    };
    let mut txid = [0u8; 32];
    txid.copy_from_slice(&(0u8..32).collect::<Vec<u8>>());
    let reference = bitcoin::Transaction {
        version: 2,
        lock_time: bitcoin::absolute::LockTime::ZERO,
        input: vec![bitcoin::TxIn {
            previous_output: bitcoin::OutPoint {
                txid: <bitcoin::Txid as bitcoin::hashes::Hash>::from_byte_array(txid),
                vout: 1,
            },
            script_sig: bitcoin::ScriptBuf::new(),
            sequence: bitcoin::Sequence(0xFFFF_FFFD),
            witness: bitcoin::Witness::from_slice(&[vec![0xAB; 64], b"script".to_vec()]),
        }],
        output: vec![bitcoin::TxOut {
            value: 10_000,
            script_pubkey: bitcoin::ScriptBuf::from_bytes(vec![0x51, 0x20, 0x07]),
        }],
    };
    assert_eq!(
        serialize_tx(&tx, true),
        bitcoin::consensus::serialize(&reference)
    );
    assert_eq!(
        ord_core::tx::compute_vsize(&tx) as usize,
        reference.vsize()
    );
    assert_eq!(
        ord_core::tx::compute_weight(&tx) as u64,
        reference.weight().to_wu()
    );
}

#[test]
fn dust_values_match_policy() {
    // P2TR output: 330 sats at the default 3 sat/vbyte dust rate.
    let mut p2tr = vec![0x51, 0x20];
    p2tr.extend(std::iter::repeat(0x11).take(32));
    assert_eq!(compute_dust_value(&p2tr), 330);
    // OP_RETURN outputs are exempt.
    assert_eq!(compute_dust_value(&vec![0x6a, 0x01, 0x02]), 0);
    // A P2PKH-shaped script follows the non-witness formula.
    let p2pkh = vec![0x76, 0xa9, 0x14, 0, 0, 0, 0, 0, 0, 0, 0, 0, 0, 0, 0, 0, 0, 0, 0, 0, 0, 0, 0, 0x88, 0xac];
    let reference = bitcoin::ScriptBuf::from_bytes(p2pkh.clone());
    assert_eq!(compute_dust_value(&p2pkh), reference.dust_value().to_sat() as u128);
}

#[test]
fn satpoint_selection_takes_the_first_cardinal_output() {
    let op = |b: u8, vout: u32| OutPointM {
        txid: vec![b; 32],
        vout,
    };
    let txout = |v: u64| TxOutM {
        value: v,
        script_pubkey: vec![0x51],
    };
    let utxos = vec![
        (op(1, 0), txout(0)),      // zero value
        (op(2, 0), txout(500)),    // inscribed
        (op(3, 0), txout(600)),    // locked
        (op(4, 0), txout(700)),    // runic
        (op(5, 0), txout(800)),    // the winner
        (op(6, 0), txout(900)),
    ];
    let inscribed = vec![(
        SatPointM {
            outpoint: op(2, 0),
            offset: 0,
        },
        Vec::<InscriptionId>::new(),
    )];
    let locked = vec![op(3, 0)];
    let runic = vec![op(4, 0)];
    let chosen = select_satpoint(&inscribed, &locked, &runic, &utxos).unwrap();
    assert_eq!(chosen.outpoint.txid, vec![5u8; 32]);
    assert_eq!(chosen.offset, 0);

    let no_cardinals = vec![(op(3, 0), txout(600))];
    assert_eq!(
        select_satpoint(&inscribed, &locked, &runic, &no_cardinals).unwrap_err(),
        BatchError::NoCardinalUtxos
    );
}

#[test]
fn reinscription_rules() {
    let sp = |b: u8, offset: u64| SatPointM {
        outpoint: OutPointM {
            txid: vec![b; 32],
            vout: 0,
        },
        offset,
    };
    let wallet = vec![(sp(1, 0), Vec::<InscriptionId>::new())];
    // Inscribing over an existing inscription needs the flag.
    assert_eq!(
        check_reinscription(&wallet, &sp(1, 0), false).unwrap_err(),
        BatchError::SatAlreadyInscribed
    );
    assert!(check_reinscription(&wallet, &sp(1, 0), true).is_ok());
    // The flag without a prior inscription fails.
    assert_eq!(
        check_reinscription(&wallet, &sp(2, 0), true).unwrap_err(),
        BatchError::NotAReinscription
    );
    // Another inscription on the same outpoint at another offset blocks.
    assert_eq!(
        check_reinscription(&wallet, &sp(1, 5), false).unwrap_err(),
        BatchError::UtxoAlreadyInscribed
    );
    assert!(check_reinscription(&wallet, &sp(2, 0), false).is_ok());
}

#[test]
fn metadata_parsing() {
    // 0xF6 is CBOR null: valid CBOR passes through unchanged.
    assert_eq!(
        parse_metadata(Some(vec![0xF6]), None),
        Ok(Some(vec![0xF6]))
    );
    // A lone 0xFF "break" byte is not a CBOR value.
    assert_eq!(
        parse_metadata(Some(vec![0xFF]), None),
        Err(MetadataError::InvalidCbor)
    );
    // JSON converts to the same CBOR that ciborium produces.
    let json = br#"{"name":"alice","n":3}"#.to_vec();
    let value: serde_json::Value = serde_json::from_slice(&json).unwrap();
    let mut expected = Vec::new();
    ciborium::into_writer(&value, &mut expected).unwrap();
    assert_eq!(parse_metadata(None, Some(json)), Ok(Some(expected)));
    assert_eq!(
        parse_metadata(None, Some(b"{not json".to_vec())),
        Err(MetadataError::InvalidJson)
    );
    assert_eq!(parse_metadata(None, None), Ok(None));
}

// A reference decoder for the envelope format: reads the key push and
// `OP_CHECKSIG`, then each `OP_FALSE OP_IF "ord" … OP_ENDIF` envelope.
#[derive(Debug, PartialEq, Default)]
struct Fields {
    body: Option<Vec<u8>>,
    content_type: Option<Vec<u8>>,
    content_encoding: Option<Vec<u8>>,
    delegate: Option<Vec<u8>>,
    metadata: Option<Vec<u8>>,
    metaprotocol: Option<Vec<u8>>,
    parents: Vec<Vec<u8>>,
    pointer: Option<Vec<u8>>,
    rune: Option<Vec<u8>>,
}

fn read_push(s: &[u8]) -> Option<(Vec<u8>, &[u8])> {
    let (len, rest): (usize, &[u8]) = match *s.first()? {
        n if n <= 75 => (n as usize, &s[1..]),
        0x4c => (s[1] as usize, &s[2..]),
        0x4d => (u16::from_le_bytes([s[1], s[2]]) as usize, &s[3..]),
        0x4e => (
            u32::from_le_bytes([s[1], s[2], s[3], s[4]]) as usize,
            &s[5..],
        ),
        _ => return None,
    };
    if rest.len() < len {
        return None;
    }
    Some((rest[..len].to_vec(), &rest[len..]))
}

fn reference_decode(script: &[u8]) -> Option<Vec<Fields>> {
    let (_pubkey, mut s) = read_push(script)?;
    if *s.first()? != 0xac {
        return None;
    }
    s = &s[1..];
    let mut envelopes = Vec::new();
    while !s.is_empty() {
        if s[0] != 0x00 || s[1] != 0x63 {
            return None;
        }
        let (proto, rest) = read_push(&s[2..])?;
        if proto != b"ord" {
            return None;
        }
        s = rest;
        let mut fields = Fields::default();
        loop {
            if *s.first()? == 0x68 {
                s = &s[1..];
                break;
            }
            let (tag, rest) = read_push(s)?;
            if tag.is_empty() {
                // Body marker: the rest of the envelope is body chunks.
                s = rest;
                let mut body = Vec::new();
                while *s.first()? != 0x68 {
                    let (chunk, rest) = read_push(s)?;
                    body.extend(chunk);
                    s = rest;
                }
                s = &s[1..];
                fields.body = Some(body);
                break;
            }
            let (value, rest) = read_push(rest)?;
            s = rest;
            match tag[0] {
                1 => fields.content_type = Some(value),
                2 => fields.pointer = Some(value),
                3 => fields.parents.push(value),
                5 => match &mut fields.metadata {
                    Some(m) => m.extend(value),
                    None => fields.metadata = Some(value),
                },
                7 => fields.metaprotocol = Some(value),
                9 => fields.content_encoding = Some(value),
                11 => fields.delegate = Some(value),
                13 => fields.rune = Some(value),
                _ => return None,
            }
        }
        envelopes.push(fields);
    }
    Some(envelopes)
}

#[test]
fn envelope_round_trips_through_the_reference_decoder() {
    let inscription = Inscription {
        body: Some(vec![0x61; 1300]),
        content_type: Some(b"text/plain;charset=utf-8".to_vec()),
        content_encoding: Some(b"br".to_vec()),
        delegate: Some(InscriptionId {
            txid: vec![9u8; 32],
            index: 3,
        }),
        metadata: Some(vec![0x55; 700]),
        metaprotocol: Some(b"proto".to_vec()),
        parents: vec![
            InscriptionId {
                txid: vec![1u8; 32],
                index: 0,
            },
            InscriptionId {
                txid: vec![2u8; 32],
                index: 256,
            },
        ],
        pointer: Some(5),
        rune: Some(77),
    };
    let pubkey = vec![0x33u8; 32];
    let script = append_batch_reveal_script(&pubkey, &vec![inscription]);
    let decoded = reference_decode(&script).expect("decodes");
    assert_eq!(decoded.len(), 1);
    let fields = &decoded[0];
    assert_eq!(fields.body, Some(vec![0x61; 1300]));
    assert_eq!(
        fields.content_type,
        Some(b"text/plain;charset=utf-8".to_vec())
    );
    assert_eq!(fields.content_encoding, Some(b"br".to_vec()));
    // Id values: txid bytes followed by the trimmed little-endian index.
    let mut delegate_value = vec![9u8; 32];
    delegate_value.push(3);
    assert_eq!(fields.delegate, Some(delegate_value));
    assert_eq!(fields.metadata, Some(vec![0x55; 700]));
    assert_eq!(fields.metaprotocol, Some(b"proto".to_vec()));
    assert_eq!(fields.parents.len(), 2);
    assert_eq!(fields.parents[0], vec![1u8; 32]);
    let mut second_parent = vec![2u8; 32];
    second_parent.extend([0x00, 0x01]);
    assert_eq!(fields.parents[1], second_parent);
    assert_eq!(fields.pointer, Some(vec![5]));
    assert_eq!(fields.rune, Some(vec![77]));
}

#[test]
fn envelope_of_one_byte_body_is_the_documented_byte_sequence() {
    let inscription = Inscription {
        body: Some(vec![0x61]),
        content_type: Some(b"text/plain;charset=utf-8".to_vec()),
        content_encoding: None,
        delegate: None,
        metadata: None,
        metaprotocol: None,
        parents: Vec::new(),
        pointer: None,
        rune: None,
    };
    let pubkey = vec![0x33u8; 32];
    let script = append_batch_reveal_script(&pubkey, &vec![inscription]);
    let mut expected = vec![0x20];
    expected.extend(vec![0x33u8; 32]); // key push
    expected.push(0xac); // OP_CHECKSIG
    expected.extend([0x00, 0x63]); // OP_FALSE OP_IF
    expected.extend([0x03, 0x6f, 0x72, 0x64]); // "ord"
    expected.extend([0x01, 0x01, 0x18]); // content-type tag, 24-byte value
    expected.extend(b"text/plain;charset=utf-8".to_vec());
    expected.extend([0x00, 0x01, 0x61]); // body marker, one-byte chunk "a"
    expected.push(0x68); // OP_ENDIF
    assert_eq!(script, expected);
}

#[test]
fn default_plan_values() {
    let plan = Plan::default();
    assert_eq!(plan.commit_fee_rate, 1);
    assert_eq!(plan.reveal_fee_rate, 1);
    assert_eq!(plan.postages, vec![10_000]);
    assert!(matches!(plan.mode, ord_core::plan::Mode::SharedOutput));
    assert!(plan.destinations.is_empty());
    assert!(!plan.dry_run && !plan.no_backup && !plan.no_limit && !plan.reinscribe);
    assert!(plan.etching.is_none() && plan.parent_info.is_none() && plan.satpoint.is_none());
    assert!(plan.inscriptions.is_empty() && plan.reveal_satpoints.is_empty());
}

#[test]
fn arity_invariants_per_mode() {
    let insc = || Inscription {
        body: None,
        content_type: None,
        content_encoding: None,
        delegate: None,
        metadata: None,
        metaprotocol: None,
        parents: Vec::new(),
        pointer: None,
        rune: None,
    };
    let mut plan = Plan::default();
    plan.mode = ord_core::plan::Mode::SeparateOutputs;
    plan.destinations = vec![vec![0x51], vec![0x52]];
    plan.inscriptions = vec![insc(), insc()];
    plan.postages = vec![1, 2];
    assert!(plan.validate_arity());
    plan.postages = vec![1];
    assert!(!plan.validate_arity());

    plan.mode = ord_core::plan::Mode::SharedOutput;
    plan.destinations = vec![vec![0x51]];
    plan.postages = vec![1, 2];
    assert!(plan.validate_arity());

    plan.mode = ord_core::plan::Mode::SameSat;
    plan.postages = vec![1];
    assert!(plan.validate_arity());
    plan.destinations = vec![vec![0x51], vec![0x52]];
    assert!(!plan.validate_arity());
}

#[test]
fn fee_calculation() {
    let outpoint = |b: u8| OutPointM {
        txid: vec![b; 32],
        vout: 0,
    };
    let tx = TransactionM {
        version: 2,
        lock_time: 0,
        input: vec![
            TxInM {
                previous_output: outpoint(1),
                sequence: 0xFFFF_FFFD,
                witness: Vec::new(),
            },
            TxInM {
                previous_output: outpoint(2),
                sequence: 0xFFFF_FFFD,
                witness: Vec::new(),
            },
        ],
        output: vec![TxOutM {
            value: 7_000,
            script_pubkey: vec![0x51],
        }],
    };
    let utxos = vec![
        (outpoint(1), TxOutM { value: 5_000, script_pubkey: vec![0x51] }),
        (outpoint(2), TxOutM { value: 4_000, script_pubkey: vec![0x51] }),
    ];
    assert_eq!(Plan::calculate_fee(&tx, &utxos), 2_000);
    // The lenient variant counts unknown inputs as zero and clamps at zero.
    let partial = vec![(outpoint(1), TxOutM { value: 5_000, script_pubkey: vec![0x51] })];
    assert_eq!(Plan::calculate_fee_defaulted(&tx, &partial), 0);
    assert_eq!(Plan::calculate_fee_defaulted(&tx, &utxos), 2_000);
}

#[test]
fn remove_witnesses_strips_every_input() {
    let tx = TransactionM {
        version: 2,
        lock_time: 0,
        input: vec![TxInM {
            previous_output: OutPointM {
                txid: vec![1; 32],
                vout: 0,
            },
            sequence: 5,
            witness: vec![vec![0xAA; 64], vec![0xBB]],
        }],
        output: Vec::new(),
    };
    let stripped = Plan::remove_witnesses(tx);
    assert_eq!(stripped.input.len(), 1);
    assert!(stripped.input[0].witness.is_empty());
    assert_eq!(stripped.input[0].sequence, 5);
    assert_eq!(stripped.input[0].previous_output.txid, vec![1; 32]);
}
