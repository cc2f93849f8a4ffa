//! Taproot key material, BIP-341 hashing and Schnorr signing, provided by the
//! `bitcoin` and `secp256k1` crates behind trusted declarations. Everything a
//! contract needs of these calls is stated over named results of the inputs;
//! what depends on randomness is stated only up to length.

use vstd::prelude::*;
use crate::tx::TxOutM;
use bitcoin::key::TapTweak;

verus! {

/// The network an address belongs to.
#[derive(Clone, Copy, PartialEq, Eq, Structural, Debug)]
pub enum Network {
    Bitcoin,
    Testnet,
    Signet,
    Regtest,
}

pub open spec fn network_id(n: Network) -> int {
    match n {
        Network::Bitcoin => 0,
        Network::Testnet => 1,
        Network::Signet => 2,
        Network::Regtest => 3,
    }
}

/// Whether 32 bytes form a valid secp256k1 secret key; what
/// `KeyPair::from_seckey_slice` accepts.
pub uninterp spec fn secret_key_valid(sk: Seq<u8>) -> bool;

/// The x-only public key of a secret key; what `XOnlyPublicKey::from_keypair`
/// returns.
pub uninterp spec fn xonly_of(sk: Seq<u8>) -> Seq<u8>;

/// The BIP-341 tweaked secret key for a merkle root; what
/// `UntweakedKeyPair::tap_tweak` returns.
pub uninterp spec fn tweaked_secret_of(sk: Seq<u8>, merkle_root: Seq<u8>) -> Seq<u8>;

/// The parity of the tweaked output key; what
/// `TweakedKeyPair::x_only_public_key` returns beside the key.
pub uninterp spec fn tweaked_parity_of(sk: Seq<u8>, merkle_root: Seq<u8>) -> bool;

/// Whether 32 bytes are a valid x-only public key; what
/// `XOnlyPublicKey::from_slice` accepts.
pub uninterp spec fn xonly_key_valid(key: Seq<u8>) -> bool;

/// The deterministic BIP-340 signature (no auxiliary randomness) of a
/// 32-byte message under a secret key; what
/// `Secp256k1::sign_schnorr_no_aux_rand` returns.
pub uninterp spec fn schnorr_sig_of(sk: Seq<u8>, msg: Seq<u8>) -> Seq<u8>;

/// The BIP-341 leaf hash of a script at leaf version 0xC0; what
/// `TapLeafHash::from_script` returns. For the single-leaf tree of this
/// engine it is also the merkle root.
pub uninterp spec fn tap_leaf_hash_of(script: Seq<u8>) -> Seq<u8>;

/// The BIP-341 script-path sighash with `Prevouts::All` and hash type
/// `Default`, over the serialized transaction, the prevouts as value/script
/// pairs, the input index and the leaf script; what
/// `SighashCache::taproot_script_spend_signature_hash` returns.
pub uninterp spec fn taproot_sighash_of(
    tx: Seq<u8>,
    prevouts: Seq<(u64, Seq<u8>)>,
    input_index: int,
    leaf_script: Seq<u8>,
) -> Seq<u8>;

/// The double-SHA256 of a byte string; what `sha256d::Hash::hash` returns.
pub uninterp spec fn sha256d_of(data: Seq<u8>) -> Seq<u8>;

/// The bech32m string of the P2TR address for an output key on a network;
/// what `Address::p2tr_tweaked` displays as.
pub uninterp spec fn p2tr_address_of(output_key: Seq<u8>, network: int) -> Seq<char>;

/// The BIP-341 control block of a single-leaf tree at depth zero: the leaf
/// version 0xC0 with the output key's parity bit, then the 32 internal key
/// bytes; no merkle path.
pub open spec fn control_block_bytes(internal_key: Seq<u8>, parity: bool) -> Seq<u8> {
    seq![if parity { 0xc1u8 } else { 0xc0u8 }] + internal_key
}

/// The value/script view of a prevout list.
pub open spec fn prevouts_view(prevouts: Seq<TxOutM>) -> Seq<(u64, Seq<u8>)> {
    prevouts.map_values(|t: TxOutM| (t.value, t.script_pubkey@))
}

/// Relies on `secp256k1::KeyPair::new`: a freshly sampled keypair's secret
/// bytes are 32 bytes and always a valid secret key. Nothing more is stated:
/// the result is random.
#[verifier::external_body]
pub(crate) fn generate_keypair() -> (r: Vec<u8>)
    ensures
        r@.len() == 32,
        secret_key_valid(r@),
{
    let secp = bitcoin::secp256k1::Secp256k1::new();
    let keypair = bitcoin::secp256k1::KeyPair::new(&secp, &mut bitcoin::secp256k1::rand::thread_rng());
    keypair.secret_bytes().to_vec()
}

/// Relies on `KeyPair::from_seckey_slice` (succeeds exactly on valid secret
/// keys) and `XOnlyPublicKey::from_keypair` (the 32-byte x-only public key of
/// the keypair, whose serialization `XOnlyPublicKey::from_slice` accepts
/// back).
#[verifier::external_body]
pub(crate) fn xonly_pubkey(sk: &Vec<u8>) -> (r: Option<Vec<u8>>)
    ensures
        r is Some <==> secret_key_valid(sk@),
        r matches Some(p) ==> p@ == xonly_of(sk@) && p@.len() == 32 && xonly_key_valid(p@),
{
    let secp = bitcoin::secp256k1::Secp256k1::new();
    let keypair = bitcoin::secp256k1::KeyPair::from_seckey_slice(&secp, sk).ok()?;
    Some(bitcoin::secp256k1::XOnlyPublicKey::from_keypair(&keypair).0.serialize().to_vec())
}

/// Relies on `TapLeafHash::from_script` with leaf version `TapScript` (0xC0):
/// the 32-byte BIP-341 leaf hash of the script.
#[verifier::external_body]
pub(crate) fn tap_leaf_hash(script: &Vec<u8>) -> (r: Vec<u8>)
    ensures
        r@ == tap_leaf_hash_of(script@),
        r@.len() == 32,
{
    let hash = bitcoin::taproot::TapLeafHash::from_script(
        bitcoin::Script::from_bytes(script),
        bitcoin::taproot::LeafVersion::TapScript,
    );
    bitcoin::hashes::Hash::to_byte_array(hash).to_vec()
}

/// Relies on `UntweakedKeyPair::tap_tweak` and
/// `TweakedKeyPair::x_only_public_key`: the returned secret bytes are the
/// BIP-341 tweaked key for the given merkle root, again a valid secret key;
/// the returned public key bytes and parity are its x-only public key, which
/// per BIP-341 (checked in the crate's own sources) is the taproot output
/// key for the untweaked key and that merkle root.
#[verifier::external_body]
pub(crate) fn tap_tweak_keypair(sk: &Vec<u8>, merkle_root: &Vec<u8>) -> (r: Option<(Vec<u8>, Vec<u8>, bool)>)
    requires
        merkle_root@.len() == 32,
    ensures
        r is Some <==> secret_key_valid(sk@),
        r matches Some(t) ==> {
            &&& t.0@ == tweaked_secret_of(sk@, merkle_root@)
            &&& t.0@.len() == 32
            &&& secret_key_valid(t.0@)
            &&& t.1@ == xonly_of(tweaked_secret_of(sk@, merkle_root@))
            &&& t.1@.len() == 32
            &&& xonly_key_valid(t.1@)
            &&& t.2 == tweaked_parity_of(sk@, merkle_root@)
        },
{
    let secp = bitcoin::secp256k1::Secp256k1::new();
    let keypair = bitcoin::secp256k1::KeyPair::from_seckey_slice(&secp, sk).ok()?;
    let mut root = [0u8; 32];
    root.copy_from_slice(merkle_root);
    let node = <bitcoin::taproot::TapNodeHash as bitcoin::hashes::Hash>::from_byte_array(root);
    let inner = keypair.tap_tweak(&secp, Some(node)).to_inner();
    let (pubkey, parity) = inner.x_only_public_key();
    let odd = parity == bitcoin::secp256k1::Parity::Odd;
    Some((inner.secret_bytes().to_vec(), pubkey.serialize().to_vec(), odd))
}

/// Relies on `Secp256k1::sign_schnorr_no_aux_rand` and `Message::from_slice`:
/// signing succeeds exactly for a valid secret key and a 32-byte message and
/// yields the 64-byte deterministic BIP-340 signature, a function of the key
/// and the message alone, so rebuilt reveals are byte-identical.
#[verifier::external_body]
pub(crate) fn sign_schnorr(sk: &Vec<u8>, msg: &Vec<u8>) -> (r: Option<Vec<u8>>)
    ensures
        r is Some <==> (secret_key_valid(sk@) && msg@.len() == 32),
        r matches Some(sig) ==> sig@ == schnorr_sig_of(sk@, msg@) && sig@.len() == 64,
{
    let secp = bitcoin::secp256k1::Secp256k1::new();
    let keypair = bitcoin::secp256k1::KeyPair::from_seckey_slice(&secp, sk).ok()?;
    let message = bitcoin::secp256k1::Message::from_slice(msg).ok()?;
    Some(secp.sign_schnorr_no_aux_rand(&message, &keypair).as_ref().to_vec())
}

/// Relies on `consensus::deserialize`, `TapLeafHash::from_script` and
/// `SighashCache::taproot_script_spend_signature_hash` with `Prevouts::All`
/// and hash type `Default`: the 32-byte BIP-341 script-path sighash, a
/// function of the serialized transaction, the prevouts, the input index and
/// the leaf script alone. `None` only when the bytes do not deserialize or
/// the index or prevout count does not fit the transaction: on the
/// base-serialization of a transaction of the model (at least one input, all
/// witnesses empty, under the decoder's
/// 4,000,000-byte read cap) with the matching prevout count and a valid
/// index, it succeeds.
#[verifier::external_body]
pub(crate) fn compute_taproot_sighash(
    tx_bytes: &Vec<u8>,
    prevouts: &Vec<TxOutM>,
    input_index: usize,
    leaf_script: &Vec<u8>,
) -> (r: Option<Vec<u8>>)
    ensures
        r matches Some(h) ==> {
            &&& h@ == taproot_sighash_of(
                tx_bytes@,
                prevouts_view(prevouts@),
                input_index as int,
                leaf_script@,
            )
            &&& h@.len() == 32
        },
        forall|t: crate::tx::TxV|
            (tx_bytes@ == crate::tx::ser_tx(t, false) && !crate::tx::tx_has_witness(t) && 0
                < t.input.len() && (input_index as int) < t.input.len() && prevouts@.len()
                == t.input.len() && tx_bytes@.len() <= 4_000_000) ==> r is Some,
{
    let tx: bitcoin::Transaction = bitcoin::consensus::deserialize(tx_bytes).ok()?;
    let outs: Vec<bitcoin::TxOut> = prevouts.iter().map(|p| bitcoin::TxOut {
        value: p.value,
        script_pubkey: bitcoin::ScriptBuf::from_bytes(p.script_pubkey.clone()),
    }).collect();
    let leaf = bitcoin::taproot::TapLeafHash::from_script(
        bitcoin::Script::from_bytes(leaf_script), bitcoin::taproot::LeafVersion::TapScript);
    let mut cache = bitcoin::sighash::SighashCache::new(&tx);
    let hash = cache.taproot_script_spend_signature_hash(input_index,
        &bitcoin::sighash::Prevouts::All(&outs), leaf,
        bitcoin::sighash::TapSighashType::Default).ok()?;
    Some(bitcoin::hashes::Hash::to_byte_array(hash).to_vec())
}

/// Relies on `sha256d::Hash::hash`: the 32-byte double-SHA256 of the input.
#[verifier::external_body]
pub(crate) fn sha256d(data: &Vec<u8>) -> (r: Vec<u8>)
    ensures
        r@ == sha256d_of(data@),
        r@.len() == 32,
{
    let hash = <bitcoin::hashes::sha256d::Hash as bitcoin::hashes::Hash>::hash(data);
    bitcoin::hashes::Hash::to_byte_array(hash).to_vec()
}

/// Relies on `XOnlyPublicKey::from_slice` and `Address::p2tr_tweaked`: the
/// bech32m address string for a taproot output key on the given network;
/// `None` exactly when the bytes are not a valid x-only key.
#[verifier::external_body]
pub(crate) fn p2tr_address_string(output_key: &Vec<u8>, network: Network) -> (r: Option<String>)
    ensures
        r is Some <==> xonly_key_valid(output_key@),
        r matches Some(s) ==> s@ == p2tr_address_of(output_key@, network_id(network)),
{
    let key = bitcoin::secp256k1::XOnlyPublicKey::from_slice(output_key).ok()?;
    let net = match network {
        Network::Bitcoin => bitcoin::Network::Bitcoin,
        Network::Testnet => bitcoin::Network::Testnet,
        Network::Signet => bitcoin::Network::Signet,
        Network::Regtest => bitcoin::Network::Regtest,
    };
    let tweaked = bitcoin::key::TweakedPublicKey::dangerous_assume_tweaked(key);
    Some(bitcoin::Address::p2tr_tweaked(tweaked, net).to_string())
}

/// Assembles the control block of the single-leaf tree: leaf version and
/// parity, then the internal key.
pub fn build_control_block(internal_key: &Vec<u8>, parity: bool) -> (r: Vec<u8>)
    ensures
        r@ == control_block_bytes(internal_key@, parity),
{
    let mut out: Vec<u8> = Vec::new();
    if parity {
        out.push(0xc1);
    } else {
        out.push(0xc0);
    }
    crate::bytes::push_all(&mut out, internal_key);
    assert(out@ =~= control_block_bytes(internal_key@, parity));
    out
}

/// The base64 PSBT string of an unsigned transaction's bytes; what
/// `Psbt::from_unsigned_tx`, `Psbt::serialize` and base64's standard
/// alphabet produce together.
pub uninterp spec fn psbt_b64_of(tx: Seq<u8>) -> Seq<char>;

/// Relies on `consensus::deserialize`, `Psbt::from_unsigned_tx`,
/// `Psbt::serialize` and `base64::engine::general_purpose::STANDARD`: the
/// base64 PSBT of an unsigned transaction, a function of its bytes alone.
/// `None` only when the bytes do not deserialize or an input still carries a
/// witness or signature script: on the base-serialization of a witnessless
/// transaction of the model with at least one input, under the decoder's
/// 4,000,000-byte read cap, it succeeds.
#[verifier::external_body]
pub(crate) fn psbt_base64(tx_bytes: &Vec<u8>) -> (r: Option<String>)
    ensures
        r matches Some(s) ==> s@ == psbt_b64_of(tx_bytes@),
        forall|t: crate::tx::TxV|
            (tx_bytes@ == crate::tx::ser_tx(t, false) && !crate::tx::tx_has_witness(t) && 0
                < t.input.len() && tx_bytes@.len() <= 4_000_000) ==> r is Some,
{
    let tx: bitcoin::Transaction = bitcoin::consensus::deserialize(tx_bytes).ok()?;
    let psbt = bitcoin::psbt::Psbt::from_unsigned_tx(tx).ok()?;
    Some(base64::Engine::encode(&base64::engine::general_purpose::STANDARD, psbt.serialize()))
}

} // verus!
