//! The two-phase inscribe flow: choosing the satoshi, preparing the commit
//! request with its persisted reveal state, and completing and signing the
//! reveal against a commit transaction.

use vstd::prelude::*;
use crate::bytes::{bytes_eq, clone_bytes};
use crate::envelope::{
    append_batch_reveal_script, reveal_script_bytes, wf_inscriptions, Inscription, InscriptionId,
    InscriptionV,
};
use crate::plan::{
    checked_sum, estimated_reveal_vsize, inputs_value, outputs_value, skeleton_tx, sum_values,
    utxos_view, BatchError, Mode, ParentInfo, Plan, SatPointM, SatPointV, MAX_STANDARD_TX_WEIGHT,
};
use crate::runes::{planned_runestone, runestone_key, EtchingM, RunestoneM, SpacedRuneM};
use crate::script::{p2tr_script, push_encoding};
use crate::taproot::{
    control_block_bytes, network_id, p2tr_address_of, secret_key_valid, tap_leaf_hash_of,
    tweaked_parity_of, tweaked_secret_of, xonly_of, Network,
};
use crate::script::dust_value;
use crate::tx::{
    ser_tx, tx_vsize, tx_weight, OutPointM, OutPointV, TransactionM, TxInM, TxInV, TxOutM, TxOutV,
    TxV,
};

verus! {

/// The postage an output gets when the caller names none.
pub const TARGET_POSTAGE: u64 = 10_000;

/// Everything needed to rebuild and sign the reveal once the commit is
/// mined, keyed in the store by the commit address string.
#[derive(Debug)]
pub struct TaprootData {
    /// The inscriptions of the batch, in order.
    pub inscriptions: Vec<Inscription>,
    /// The reveal leaf script.
    pub reveal_script: Vec<u8>,
    /// The control block of the script-path spend.
    pub control_block: Vec<u8>,
    /// The commit P2TR address string.
    pub taproot_address: String,
    /// The ephemeral untweaked secret key; signs the script-path spend.
    pub untweaked_secret: Vec<u8>,
    /// The tweaked secret key; can sweep the commit output by key path.
    pub tweaked_secret: Vec<u8>,
}

/// Whether `op` occurs in the list.
pub open spec fn outpoint_in(s: Seq<OutPointV>, op: OutPointV) -> bool {
    exists|i: int| 0 <= i < s.len() && s[i] == op
}

/// The outpoints at which the wallet already holds inscriptions.
pub open spec fn inscribed_outpoints(wi: Seq<(SatPointM, Vec<InscriptionId>)>) -> Seq<OutPointV> {
    wi.map_values(|e: (SatPointM, Vec<InscriptionId>)| e.0@.outpoint)
}

pub open spec fn locked_view(s: Seq<OutPointM>) -> Seq<OutPointV> {
    s.map_values(|o: OutPointM| o@)
}

/// A cardinal output: positive value, not inscribed, not locked, not runic.
pub open spec fn is_cardinal(
    entry: (OutPointV, TxOutV),
    inscribed: Seq<OutPointV>,
    locked: Seq<OutPointV>,
    runic: Seq<OutPointV>,
) -> bool {
    &&& entry.1.value > 0
    &&& !outpoint_in(inscribed, entry.0)
    &&& !outpoint_in(locked, entry.0)
    &&& !outpoint_in(runic, entry.0)
}

/// Whether `op` occurs among the listed outpoints.
fn contains_outpoint(list: &Vec<OutPointM>, op: &OutPointM) -> (r: bool)
    ensures
        r == outpoint_in(locked_view(list@), op@),
{
    let mut i: usize = 0;
    while i < list.len()
        invariant
            0 <= i <= list@.len(),
            forall|j: int| 0 <= j < i ==> locked_view(list@)[j] != op@,
        decreases list@.len() - i,
    {
        let entry = &list[i];
        if entry.vout == op.vout && bytes_eq(&entry.txid, &op.txid) {
            assert(locked_view(list@)[i as int] == op@);
            return true;
        }
        assert(locked_view(list@)[i as int] == list@[i as int]@);
        i = i + 1;
    }
    false
}

/// Whether the wallet holds an inscription at `op`.
fn contains_inscribed(wi: &Vec<(SatPointM, Vec<InscriptionId>)>, op: &OutPointM) -> (r: bool)
    ensures
        r == outpoint_in(inscribed_outpoints(wi@), op@),
{
    let mut i: usize = 0;
    while i < wi.len()
        invariant
            0 <= i <= wi@.len(),
            forall|j: int| 0 <= j < i ==> inscribed_outpoints(wi@)[j] != op@,
        decreases wi@.len() - i,
    {
        let entry = &wi[i].0.outpoint;
        if entry.vout == op.vout && bytes_eq(&entry.txid, &op.txid) {
            assert(inscribed_outpoints(wi@)[i as int] == op@);
            return true;
        }
        assert(inscribed_outpoints(wi@)[i as int] == wi@[i as int].0@.outpoint);
        i = i + 1;
    }
    false
}

/// Chooses the satoshi to inscribe when the plan names none: the first
/// cardinal output, at offset zero. Fails when the wallet has no cardinal
/// output.
pub fn select_satpoint(
    wallet_inscriptions: &Vec<(SatPointM, Vec<InscriptionId>)>,
    locked_utxos: &Vec<OutPointM>,
    runic_utxos: &Vec<OutPointM>,
    utxos: &Vec<(OutPointM, TxOutM)>,
) -> (r: Result<SatPointM, BatchError>)
    ensures
        ({
            let uv = crate::plan::utxos_view(utxos@);
            let inscribed = inscribed_outpoints(wallet_inscriptions@);
            let locked = locked_view(locked_utxos@);
            let runic = locked_view(runic_utxos@);
            &&& (r matches Ok(sp) ==> exists|k: int|
                {
                    &&& 0 <= k < uv.len()
                    &&& sp@.outpoint == uv[k].0
                    &&& sp@.offset == 0
                    &&& is_cardinal(#[trigger] uv[k], inscribed, locked, runic)
                    &&& forall|j: int|
                        0 <= j < k ==> !is_cardinal(#[trigger] uv[j], inscribed, locked, runic)
                })
            &&& (r is Err <==> (forall|k: int|
                0 <= k < uv.len() ==> !is_cardinal(#[trigger] uv[k], inscribed, locked, runic)))
            &&& (r matches Err(e) ==> e == BatchError::NoCardinalUtxos)
        }),
{
    let ghost uv = crate::plan::utxos_view(utxos@);
    let ghost inscribed = inscribed_outpoints(wallet_inscriptions@);
    let ghost locked = locked_view(locked_utxos@);
    let ghost runic = locked_view(runic_utxos@);
    let mut i: usize = 0;
    while i < utxos.len()
        invariant
            0 <= i <= utxos@.len(),
            uv == crate::plan::utxos_view(utxos@),
            inscribed == inscribed_outpoints(wallet_inscriptions@),
            locked == locked_view(locked_utxos@),
            runic == locked_view(runic_utxos@),
            uv.len() == utxos@.len(),
            forall|j: int| 0 <= j < i ==> !is_cardinal(#[trigger] uv[j], inscribed, locked, runic),
        decreases utxos@.len() - i,
    {
        let entry = &utxos[i];
        proof {
            assert(uv[i as int] == (utxos@[i as int].0@, utxos@[i as int].1@));
        }
        let good = entry.1.value > 0 && !contains_inscribed(wallet_inscriptions, &entry.0)
            && !contains_outpoint(locked_utxos, &entry.0) && !contains_outpoint(
            runic_utxos,
            &entry.0,
        );
        if good {
            let sp = SatPointM {
                outpoint: OutPointM { txid: clone_bytes(&entry.0.txid), vout: entry.0.vout },
                offset: 0,
            };
            proof {
                assert(is_cardinal(uv[i as int], inscribed, locked, runic));
                assert(sp@.outpoint == uv[i as int].0);
            }
            return Ok(sp);
        }
        proof {
            assert(!is_cardinal(uv[i as int], inscribed, locked, runic));
        }
        i = i + 1;
    }
    Err(BatchError::NoCardinalUtxos)
}

/// Whether an inscription sits exactly at `sp`.
pub open spec fn has_exact_inscription(
    wi: Seq<(SatPointM, Vec<InscriptionId>)>,
    sp: SatPointV,
) -> bool {
    exists|i: int| 0 <= i < wi.len() && (#[trigger] wi[i]).0@ == sp
}

/// Whether an inscription occupies the same outpoint at another offset.
pub open spec fn has_blocking_inscription(
    wi: Seq<(SatPointM, Vec<InscriptionId>)>,
    sp: SatPointV,
) -> bool {
    exists|i: int|
        0 <= i < wi.len() && (#[trigger] wi[i]).0@.outpoint == sp.outpoint && wi[i].0@ != sp
}

/// Which reinscription error is justified by the facts on the ground.
pub open spec fn reinscription_err_ok(
    e: BatchError,
    exact: bool,
    blocking: bool,
    reinscribe: bool,
) -> bool {
    &&& (e == BatchError::SatAlreadyInscribed ==> exact && !reinscribe)
    &&& (e == BatchError::UtxoAlreadyInscribed ==> blocking)
    &&& (e == BatchError::NotAReinscription ==> reinscribe && !exact)
    &&& (e == BatchError::SatAlreadyInscribed || e == BatchError::UtxoAlreadyInscribed || e == BatchError::NotAReinscription)
}

/// Checks the chosen satpoint against the wallet's inscriptions: inscribing
/// over an existing inscription needs the reinscribe flag, the flag needs an
/// existing inscription, and another inscription on the same outpoint at a
/// different offset always blocks.
pub fn check_reinscription(
    wallet_inscriptions: &Vec<(SatPointM, Vec<InscriptionId>)>,
    satpoint: &SatPointM,
    reinscribe: bool,
) -> (r: Result<(), BatchError>)
    ensures
        ({
            let exact = has_exact_inscription(wallet_inscriptions@, satpoint@);
            let blocking = has_blocking_inscription(wallet_inscriptions@, satpoint@);
            &&& (r is Ok <==> !blocking && (exact == reinscribe))
            &&& (r matches Err(e) ==> reinscription_err_ok(e, exact, blocking, reinscribe))
        }),
{
    let mut reinscription = false;
    let mut i: usize = 0;
    while i < wallet_inscriptions.len()
        invariant
            0 <= i <= wallet_inscriptions@.len(),
            reinscription ==> has_exact_inscription(wallet_inscriptions@, satpoint@),
            reinscription ==> reinscribe,
            !reinscription ==> forall|j: int|
                0 <= j < i ==> (#[trigger] wallet_inscriptions@[j]).0@ != satpoint@,
            forall|j: int|
                0 <= j < i ==> !((#[trigger] wallet_inscriptions@[j]).0@.outpoint
                    == satpoint@.outpoint && wallet_inscriptions@[j].0@ != satpoint@),
        decreases wallet_inscriptions@.len() - i,
    {
        let inscribed = &wallet_inscriptions[i].0;
        let same_outpoint = inscribed.outpoint.vout == satpoint.outpoint.vout && bytes_eq(
            &inscribed.outpoint.txid,
            &satpoint.outpoint.txid,
        );
        let exact = same_outpoint && inscribed.offset == satpoint.offset;
        proof {
            assert(wallet_inscriptions@[i as int].0@ == wallet_inscriptions@[i as int].0@);
            if exact {
                assert(wallet_inscriptions@[i as int].0@ == satpoint@);
            } else if same_outpoint {
                assert(wallet_inscriptions@[i as int].0@.outpoint == satpoint@.outpoint
                    && wallet_inscriptions@[i as int].0@ != satpoint@);
            } else {
                assert(wallet_inscriptions@[i as int].0@.outpoint != satpoint@.outpoint);
            }
        }
        if exact {
            reinscription = true;
            proof {
                assert(has_exact_inscription(wallet_inscriptions@, satpoint@));
            }
            if !reinscribe {
                return Err(BatchError::SatAlreadyInscribed);
            }
        } else if same_outpoint {
            proof {
                assert(has_blocking_inscription(wallet_inscriptions@, satpoint@));
            }
            return Err(BatchError::UtxoAlreadyInscribed);
        }
        i = i + 1;
    }
    if reinscribe && !reinscription {
        return Err(BatchError::NotAReinscription);
    }
    proof {
        if !reinscription {
            assert(!has_exact_inscription(wallet_inscriptions@, satpoint@));
        }
        assert(!has_blocking_inscription(wallet_inscriptions@, satpoint@));
    }
    Ok(())
}

/// A fresh copy of an inscription id.
pub fn clone_id(id: &InscriptionId) -> (r: InscriptionId)
    ensures
        r@ == id@,
{
    InscriptionId { txid: clone_bytes(&id.txid), index: id.index }
}

fn clone_opt_bytes(v: &Option<Vec<u8>>) -> (r: Option<Vec<u8>>)
    ensures
        crate::envelope::opt_view(r) == crate::envelope::opt_view(*v),
{
    match v {
        Some(b) => Some(clone_bytes(b)),
        None => None,
    }
}

/// A fresh copy of an inscription.
pub fn clone_inscription(insc: &Inscription) -> (r: Inscription)
    ensures
        r@ == insc@,
{
    let mut parents: Vec<InscriptionId> = Vec::new();
    let mut i: usize = 0;
    while i < insc.parents.len()
        invariant
            0 <= i <= insc.parents@.len(),
            parents@.len() == i,
            forall|j: int| 0 <= j < i ==> #[trigger] parents@[j]@ == insc.parents@[j]@,
        decreases insc.parents@.len() - i,
    {
        parents.push(clone_id(&insc.parents[i]));
        i = i + 1;
    }
    let delegate = match &insc.delegate {
        Some(d) => Some(clone_id(d)),
        None => None,
    };
    let r = Inscription {
        body: clone_opt_bytes(&insc.body),
        content_type: clone_opt_bytes(&insc.content_type),
        content_encoding: clone_opt_bytes(&insc.content_encoding),
        delegate,
        metadata: clone_opt_bytes(&insc.metadata),
        metaprotocol: clone_opt_bytes(&insc.metaprotocol),
        parents,
        pointer: insc.pointer,
        rune: insc.rune,
    };
    proof {
        assert(r@.parents =~= insc@.parents);
        assert(crate::envelope::opt_id_view(r.delegate) == crate::envelope::opt_id_view(
            insc.delegate,
        ));
    }
    r
}

/// Fresh copies of a batch of inscriptions.
pub fn clone_inscriptions(inscs: &Vec<Inscription>) -> (r: Vec<Inscription>)
    ensures
        r@.map_values(|i: Inscription| i@) == inscs@.map_values(|i: Inscription| i@),
{
    let mut out: Vec<Inscription> = Vec::new();
    let mut i: usize = 0;
    while i < inscs.len()
        invariant
            0 <= i <= inscs@.len(),
            out@.len() == i,
            forall|j: int| 0 <= j < i ==> #[trigger] out@[j]@ == inscs@[j]@,
        decreases inscs@.len() - i,
    {
        out.push(clone_inscription(&inscs[i]));
        i = i + 1;
    }
    proof {
        assert(out@.map_values(|i: Inscription| i@) =~= inscs@.map_values(|i: Inscription| i@));
    }
    out
}

/// A fresh copy of an outpoint.
pub fn clone_outpoint(op: &OutPointM) -> (r: OutPointM)
    ensures
        r@ == op@,
{
    OutPointM { txid: clone_bytes(&op.txid), vout: op.vout }
}

/// A fresh copy of an output.
pub fn clone_txout(o: &TxOutM) -> (r: TxOutM)
    ensures
        r@ == o@,
{
    TxOutM { value: o.value, script_pubkey: clone_bytes(&o.script_pubkey) }
}

/// Fresh copies of a list of outputs.
pub fn clone_txouts(outs: &Vec<TxOutM>) -> (r: Vec<TxOutM>)
    ensures
        r@.map_values(|o: TxOutM| o@) == outs@.map_values(|o: TxOutM| o@),
        r@.len() == outs@.len(),
{
    let mut out: Vec<TxOutM> = Vec::new();
    let mut i: usize = 0;
    while i < outs.len()
        invariant
            0 <= i <= outs@.len(),
            out@.len() == i,
            forall|j: int| 0 <= j < i ==> #[trigger] out@[j]@ == outs@[j]@,
        decreases outs@.len() - i,
    {
        out.push(clone_txout(&outs[i]));
        i = i + 1;
    }
    proof {
        assert(out@.map_values(|o: TxOutM| o@) =~= outs@.map_values(|o: TxOutM| o@));
    }
    out
}

/// Fresh copies of a list of outpoints.
pub fn clone_outpoints(ops: &Vec<OutPointM>) -> (r: Vec<OutPointM>)
    ensures
        r@.map_values(|o: OutPointM| o@) == ops@.map_values(|o: OutPointM| o@),
        r@.len() == ops@.len(),
{
    let mut out: Vec<OutPointM> = Vec::new();
    let mut i: usize = 0;
    while i < ops.len()
        invariant
            0 <= i <= ops@.len(),
            out@.len() == i,
            forall|j: int| 0 <= j < i ==> #[trigger] out@[j]@ == ops@[j]@,
        decreases ops@.len() - i,
    {
        out.push(clone_outpoint(&ops[i]));
        i = i + 1;
    }
    proof {
        assert(out@.map_values(|o: OutPointM| o@) =~= ops@.map_values(|o: OutPointM| o@));
    }
    out
}

/// The placeholder outpoint that stands where the commit outpoint will be
/// bound: an all-zero txid and the maximal index.
pub open spec fn null_outpoint() -> OutPointV {
    OutPointV { txid: Seq::new(32, |i: int| 0u8), vout: 0xffff_ffffu32 }
}

/// Builds the placeholder outpoint.
pub fn make_null_outpoint() -> (r: OutPointM)
    ensures
        r@ == null_outpoint(),
{
    let mut txid: Vec<u8> = Vec::new();
    let mut i: usize = 0;
    while i < 32
        invariant
            0 <= i <= 32,
            txid@.len() == i,
            forall|j: int| 0 <= j < i ==> txid@[j] == 0u8,
        decreases 32 - i,
    {
        txid.push(0u8);
        i = i + 1;
    }
    let r = OutPointM { txid, vout: 0xffff_ffff };
    proof {
        assert(r@.txid =~= null_outpoint().txid);
    }
    r
}

/// The reveal inputs before the commit outpoint is known: the parent's
/// outpoint first if present, then the satpoints in order, then the
/// placeholder for the commit outpoint.
pub open spec fn expected_reveal_inputs(
    parent: Option<ParentInfo>,
    satpoints: Seq<(SatPointM, TxOutM)>,
) -> Seq<OutPointV> {
    (match parent {
        Some(p) => seq![p.location.outpoint@],
        None => Seq::empty(),
    }) + satpoints.map_values(|e: (SatPointM, TxOutM)| e.0@.outpoint) + seq![null_outpoint()]
}

/// The value of destination output `i` under a mode: its own postage in
/// `SeparateOutputs` and `SatPoints`, the summed postage otherwise.
pub open spec fn dest_value(mode: Mode, postages: Seq<u64>, i: int) -> int {
    match mode {
        Mode::SeparateOutputs | Mode::SatPoints => postages[i] as int,
        Mode::SharedOutput | Mode::SameSat => sum_values(postages),
    }
}

/// The reveal outputs: the parent resend first if present, one output per
/// destination, the premine output when the etching premines, and the
/// runestone output last when there is an etching.
pub open spec fn expected_reveal_outputs(
    parent: Option<ParentInfo>,
    mode: Mode,
    destinations: Seq<Vec<u8>>,
    postages: Seq<u64>,
    etching: Option<EtchingM>,
    reveal_change: Seq<u8>,
) -> Seq<TxOutV> {
    let parent_part: Seq<TxOutV> = match parent {
        Some(p) => seq![TxOutV { value: p.tx_out.value, script_pubkey: p.destination@ }],
        None => Seq::empty(),
    };
    let dest_part = Seq::new(
        destinations.len(),
        |i: int|
            TxOutV {
                value: dest_value(mode, postages, i) as u64,
                script_pubkey: destinations[i]@,
            },
    );
    let premine_part: Seq<TxOutV> = match etching {
        Some(e) => if e.premine > 0 {
            seq![TxOutV { value: TARGET_POSTAGE, script_pubkey: reveal_change }]
        } else {
            Seq::empty()
        },
        None => Seq::empty(),
    };
    let runestone_part: Seq<TxOutV> = match etching {
        Some(e) => seq![
            TxOutV {
                value: 0,
                script_pubkey: planned_runestone_bytes(
                    e,
                    parent_part.len() + destinations.len(),
                ),
            },
        ],
        None => Seq::empty(),
    };
    parent_part + dest_part + premine_part + runestone_part
}

/// The script of the planned runestone when the premine output would sit at
/// index `premine_vout`.
pub open spec fn planned_runestone_bytes(e: EtchingM, premine_vout: nat) -> Seq<u8> {
    let rs = planned_runestone(
        e,
        if e.premine > 0 {
            Some(premine_vout as u32)
        } else {
            None
        },
    );
    crate::runes::runestone_bytes(runestone_key(rs).0, runestone_key(rs).1)
}

/// What the external transaction builder is asked to fund, together with the
/// state to persist and the reveal layout to complete later.
#[derive(Debug)]
pub struct CommitRequest {
    /// The persisted reveal state, keyed by the commit address.
    pub state: TaprootData,
    /// The commit output's script.
    pub commit_script: Vec<u8>,
    /// The value the commit must send to the commit address.
    pub target_value: u64,
    /// The reveal inputs, the commit placeholder last.
    pub reveal_inputs: Vec<OutPointM>,
    /// The reveal outputs, in final order.
    pub reveal_outputs: Vec<TxOutM>,
    /// Which input the commit outpoint binds to.
    pub commit_input_index: usize,
    /// The planned runestone, when the plan etches a rune.
    pub runestone: Option<RunestoneM>,
    /// The rune being etched, if any.
    pub rune: Option<SpacedRuneM>,
    /// Where the premine goes, when there is one.
    pub rune_destination: Option<Vec<u8>>,
    /// The premine output's index, when there is a premine.
    pub rune_vout: Option<u32>,
    /// The reveal fee the estimate arrived at.
    pub reveal_fee: u64,
    /// The summed postage.
    pub total_postage: u64,
}

impl Plan {
    /// Whether the fields this flow reads are small enough for the
    /// construction's casts and pushes.
    pub open spec fn sizes_ok(&self) -> bool {
        &&& wf_inscriptions(self.inscriptions@.map_values(|i: Inscription| i@))
        &&& sum_values(self.postages@) <= u64::MAX
        &&& self.destinations@.len() + 2 < 0x1_0000_0000
    }

    /// Phase 1 of the flow: samples an ephemeral keypair, encodes the reveal
    /// leaf script, commits to it in a single-leaf taproot tree, and lays
    /// out the reveal transaction and the value the commit must fund. The
    /// returned state carries everything Phase 2 needs.
    #[verifier::rlimit(100)]
    pub fn create_commit_request(&self, network: Network, reveal_change: &Vec<u8>) -> (r: Result<
        CommitRequest,
        BatchError,
    >)
        requires
            self.arity_ok(),
            self.sizes_ok(),
            (self.parent_info matches Some(p) ==> parents_match_plan(self.inscriptions@, p.id)),
        ensures
            r matches Ok(req) ==> commit_request_ok(*self, network, reveal_change@, req),
            r matches Err(e) ==> (e == BatchError::RunestoneTooLarge {
                len: runestone_len_of(*self),
            } || e == BatchError::ValueOverflow),
            (self.etching matches Some(e) && !self.no_limit && runestone_len_of(*self) > 82)
                <==> r == Result::<CommitRequest, BatchError>::Err(BatchError::RunestoneTooLarge {
                len: runestone_len_of(*self),
            }),
            !(self.etching matches Some(e) && !self.no_limit && runestone_len_of(*self) > 82)
                ==> ((r == Result::<CommitRequest, BatchError>::Err(BatchError::ValueOverflow))
                <==> planned_target(*self, reveal_change@) > u64::MAX),
            (!(self.etching matches Some(e) && !self.no_limit && runestone_len_of(*self) > 82)
                && planned_target(*self, reveal_change@) <= u64::MAX) ==> r is Ok,
    {
        let ghost ivs = self.inscriptions@.map_values(|i: Inscription| i@);
        // Ephemeral key material and the commitment to the reveal script.
        let untweaked_secret = crate::taproot::generate_keypair();
        let internal_key = match crate::taproot::xonly_pubkey(&untweaked_secret) {
            Some(k) => k,
            None => {
                proof {
                    assert(false);
                }
                return Err(BatchError::KeyInvalid);
            },
        };
        let reveal_script = append_batch_reveal_script(&internal_key, &self.inscriptions);
        let leaf_hash = crate::taproot::tap_leaf_hash(&reveal_script);
        let (tweaked_secret, output_key, parity) = match crate::taproot::tap_tweak_keypair(
            &untweaked_secret,
            &leaf_hash,
        ) {
            Some(t) => t,
            None => {
                proof {
                    assert(false);
                }
                return Err(BatchError::KeyInvalid);
            },
        };
        let control_block = crate::taproot::build_control_block(&internal_key, parity);
        let commit_script = crate::script::build_p2tr_script(&output_key);
        // Reveal outputs.
        let ghost expected_outs = expected_reveal_outputs(
            self.parent_info,
            self.mode,
            self.destinations@,
            self.postages@,
            self.etching,
            reveal_change@,
        );
        let total_postage = match checked_sum(&self.postages) {
            Some(v) => v,
            None => {
                proof {
                    assert(false);
                }
                return Err(BatchError::ValueOverflow);
            },
        };
        let mut reveal_outputs: Vec<TxOutM> = Vec::new();
        let parent_count: usize = match &self.parent_info {
            Some(parent) => {
                reveal_outputs.push(
                    TxOutM {
                        value: parent.tx_out.value,
                        script_pubkey: clone_bytes(&parent.destination),
                    },
                );
                1
            },
            None => 0,
        };
        let mut i: usize = 0;
        while i < self.destinations.len()
            invariant
                0 <= i <= self.destinations@.len(),
                parent_count == (if self.parent_info is Some {
                    1int
                } else {
                    0int
                }),
                total_postage == sum_values(self.postages@),
                sum_values(self.postages@) <= u64::MAX,
                mode_arity_for(self),
                reveal_outputs@.len() == parent_count + i,
                (self.parent_info matches Some(p) ==> reveal_outputs@[0]@ == (TxOutV {
                    value: p.tx_out.value,
                    script_pubkey: p.destination@,
                })),
                forall|j: int|
                    0 <= j < i ==> #[trigger] reveal_outputs@[parent_count + j]@ == (TxOutV {
                        value: dest_value(self.mode, self.postages@, j) as u64,
                        script_pubkey: self.destinations@[j]@,
                    }),
            decreases self.destinations@.len() - i,
        {
            let value: u64 = match self.mode {
                Mode::SeparateOutputs | Mode::SatPoints => self.postages[i],
                Mode::SharedOutput | Mode::SameSat => total_postage,
            };
            proof {
                if self.mode is SeparateOutputs || self.mode is SatPoints {
                    assert(value == dest_value(self.mode, self.postages@, i as int));
                } else {
                    assert(value == dest_value(self.mode, self.postages@, i as int));
                }
            }
            reveal_outputs.push(
                TxOutM { value, script_pubkey: clone_bytes(&self.destinations[i]) },
            );
            i = i + 1;
        }
        // Etching outputs: the premine output and the runestone.
        let mut runestone: Option<RunestoneM> = None;
        let mut rune: Option<SpacedRuneM> = None;
        let mut rune_vout: Option<u32> = None;
        let mut rune_destination: Option<Vec<u8>> = None;
        let premine_positive: bool = match &self.etching {
            Some(etching) => etching.premine > 0,
            None => false,
        };
        if let Some(etching) = &self.etching {
            if etching.premine > 0 {
                let vout = reveal_outputs.len() as u32;
                rune_vout = Some(vout);
                rune_destination = Some(clone_bytes(reveal_change));
                reveal_outputs.push(
                    TxOutM { value: TARGET_POSTAGE, script_pubkey: clone_bytes(reveal_change) },
                );
            }
            let rs = crate::runes::plan_runestone(etching, rune_vout);
            let script_pubkey = crate::runes::encipher_runestone(&rs);
            if !self.no_limit && script_pubkey.len() > 82 {
                return Err(BatchError::RunestoneTooLarge { len: script_pubkey.len() });
            }
            runestone = Some(rs);
            rune = Some(etching.rune);
            reveal_outputs.push(TxOutM { value: 0, script_pubkey });
        }
        proof {
            let got = reveal_outputs@.map_values(|o: TxOutM| o@);
            let parent_part: Seq<TxOutV> = if self.parent_info is Some {
                seq![
                    TxOutV {
                        value: self.parent_info->Some_0.tx_out.value,
                        script_pubkey: self.parent_info->Some_0.destination@,
                    },
                ]
            } else {
                Seq::empty()
            };
            let dest_len = self.destinations@.len() as int;
            assert(got.len() == expected_outs.len());
            assert forall|j: int| 0 <= j < got.len() implies got[j] == expected_outs[j] by {
                assert(got[j] == reveal_outputs@[j]@);
                if j < parent_count {
                    assert(expected_outs[j] == parent_part[j]);
                } else if j < parent_count + dest_len {
                    assert(reveal_outputs@[parent_count + (j - parent_count)]@ == (TxOutV {
                        value: dest_value(self.mode, self.postages@, j - parent_count) as u64,
                        script_pubkey: self.destinations@[j - parent_count]@,
                    }));
                } else {
                    assert(j >= parent_count + dest_len);
                }
            }
            assert(got =~= expected_outs);
        }
        // Reveal inputs: parent, satpoints, then the commit placeholder.
        let mut reveal_inputs: Vec<OutPointM> = Vec::new();
        if let Some(parent) = &self.parent_info {
            reveal_inputs.push(clone_outpoint(&parent.location.outpoint));
        }
        let mut k: usize = 0;
        while k < self.reveal_satpoints.len()
            invariant
                0 <= k <= self.reveal_satpoints@.len(),
                parent_count == (if self.parent_info is Some {
                    1int
                } else {
                    0int
                }),
                reveal_inputs@.len() == parent_count + k,
                (self.parent_info matches Some(p) ==> reveal_inputs@[0]@
                    == p.location.outpoint@),
                forall|j: int|
                    0 <= j < k ==> #[trigger] reveal_inputs@[parent_count + j]@
                        == self.reveal_satpoints@[j].0@.outpoint,
            decreases self.reveal_satpoints@.len() - k,
        {
            reveal_inputs.push(clone_outpoint(&self.reveal_satpoints[k].0.outpoint));
            k = k + 1;
        }
        let commit_input_index = reveal_inputs.len();
        reveal_inputs.push(make_null_outpoint());
        proof {
            let got = reveal_inputs@.map_values(|o: OutPointM| o@);
            let want = expected_reveal_inputs(self.parent_info, self.reveal_satpoints@);
            let sp_len = self.reveal_satpoints@.len() as int;
            assert(got.len() == want.len());
            assert forall|j: int| 0 <= j < got.len() implies got[j] == want[j] by {
                assert(got[j] == reveal_inputs@[j]@);
                if j < parent_count {
                } else if j < parent_count + sp_len {
                    assert(reveal_inputs@[parent_count + (j - parent_count)]@
                        == self.reveal_satpoints@[j - parent_count].0@.outpoint);
                    assert(self.reveal_satpoints@.map_values(
                        |e: (SatPointM, TxOutM)| e.0@.outpoint,
                    )[j - parent_count] == self.reveal_satpoints@[j - parent_count].0@.outpoint);
                } else {
                    assert(j == parent_count + sp_len);
                }
            }
            assert(got =~= want);
        }
        // Fee estimation over the dressed skeleton.
        let etching_present = match &self.etching {
            Some(_) => true,
            None => false,
        };
        proof {
            let want_inputs = expected_reveal_inputs(self.parent_info, self.reveal_satpoints@);
            let zk = zero_key();
            assert(push_encoding(internal_key@).len() == 33);
            assert(push_encoding(zk).len() == 33);
            assert(reveal_script@.len() == reveal_script_bytes(zk, ivs).len());
            assert(control_block@.len() == crate::taproot::control_block_bytes(zk, false).len());
            crate::plan::lemma_estimate_shape(
                want_inputs,
                want_inputs,
                expected_outs,
                commit_input_index as int,
                reveal_script@,
                control_block@,
                reveal_script_bytes(zk, ivs),
                crate::taproot::control_block_bytes(zk, false),
                etching_present,
            );
            assert(estimated_reveal_vsize(
                want_inputs,
                expected_outs,
                commit_input_index as int,
                reveal_script@,
                control_block@,
                etching_present,
            ) == planned_reveal_estimate(*self, reveal_change@));
            crate::plan::lemma_sum_values_nonneg(self.postages@);
        }
        let estimate_outputs = clone_txouts(&reveal_outputs);
        let estimate_inputs = clone_outpoints(&reveal_inputs);
        let reveal_fee = match Plan::build_reveal_transaction(
            commit_input_index,
            &control_block,
            self.reveal_fee_rate,
            estimate_outputs,
            estimate_inputs,
            &reveal_script,
            etching_present,
        ) {
            Ok(p) => p.1,
            Err(_) => {
                proof {
                    assert(planned_target(*self, reveal_change@) > u64::MAX);
                }
                return Err(BatchError::ValueOverflow);
            },
        };
        // The target the commit transaction must fund.
        let mut target_value: u64 = reveal_fee;
        if !matches!(self.mode, Mode::SatPoints) {
            target_value = match target_value.checked_add(total_postage) {
                Some(v) => v,
                None => {
                    proof {
                        assert(planned_target(*self, reveal_change@) > u64::MAX);
                    }
                    return Err(BatchError::ValueOverflow);
                },
            };
        }
        if premine_positive {
            target_value = match target_value.checked_add(TARGET_POSTAGE) {
                Some(v) => v,
                None => {
                    proof {
                        assert(planned_target(*self, reveal_change@) > u64::MAX);
                    }
                    return Err(BatchError::ValueOverflow);
                },
            };
        }
        proof {
            assert(target_value == planned_target(*self, reveal_change@));
        }
        // The commit address, shown to the funder and used as the store key.
        let taproot_address = match crate::taproot::p2tr_address_string(&output_key, network) {
            Some(a) => a,
            None => {
                // The tweaked output key serializes to a valid x-only key,
                // so the address is always available.
                proof {
                    assert(false);
                }
                return Err(BatchError::ValueOverflow);
            },
        };
        let state = TaprootData {
            inscriptions: clone_inscriptions(&self.inscriptions),
            reveal_script,
            control_block,
            taproot_address,
            untweaked_secret,
            tweaked_secret,
        };
        Ok(
            CommitRequest {
                state,
                commit_script,
                target_value,
                reveal_inputs,
                reveal_outputs,
                commit_input_index,
                runestone,
                rune,
                rune_destination,
                rune_vout,
                reveal_fee,
                total_postage,
            },
        )
    }
}

/// Whether every inscription declares exactly the given parent, as the plan
/// with a parent requires.
pub open spec fn parents_match_plan(inscriptions: Seq<Inscription>, parent: InscriptionId) -> bool {
    forall|i: int|
        0 <= i < inscriptions.len() ==> (#[trigger] inscriptions[i])@.parents == seq![parent@]
}

/// Shorthand for a plan's arity in invariants.
pub open spec fn mode_arity_for(plan: &Plan) -> bool {
    plan.arity_ok()
}

/// The length of the runestone script the plan would emit.
pub open spec fn runestone_len_of(plan: Plan) -> usize {
    (match plan.etching {
        Some(e) => planned_runestone_bytes(
            e,
            ((if plan.parent_info is Some {
                1int
            } else {
                0int
            }) + plan.destinations@.len()) as nat,
        ).len(),
        None => 0,
    }) as usize
}

/// A placeholder 32-byte key. The drawn key enters the fee estimate only
/// through its fixed length, so the estimate with this key is the estimate
/// with any key.
pub open spec fn zero_key() -> Seq<u8> {
    Seq::new(32, |i: int| 0u8)
}

/// The reveal fee estimate of a plan, independent of the key that will be
/// drawn.
pub open spec fn planned_reveal_estimate(plan: Plan, reveal_change: Seq<u8>) -> nat {
    let ivs = plan.inscriptions@.map_values(|i: Inscription| i@);
    estimated_reveal_vsize(
        expected_reveal_inputs(plan.parent_info, plan.reveal_satpoints@),
        expected_reveal_outputs(
            plan.parent_info,
            plan.mode,
            plan.destinations@,
            plan.postages@,
            plan.etching,
            reveal_change,
        ),
        (if plan.parent_info is Some {
            1int
        } else {
            0int
        }) + plan.reveal_satpoints@.len(),
        reveal_script_bytes(zero_key(), ivs),
        control_block_bytes(zero_key(), false),
        plan.etching is Some,
    )
}

/// The value the commit must fund for a plan: the estimated reveal fee, the
/// postage outside `SatPoints` mode, and the premine postage.
pub open spec fn planned_target(plan: Plan, reveal_change: Seq<u8>) -> int {
    plan.reveal_fee_rate * planned_reveal_estimate(plan, reveal_change) + (if plan.mode
        != Mode::SatPoints {
        sum_values(plan.postages@)
    } else {
        0int
    }) + (if plan.etching matches Some(e) && e.premine > 0 {
        TARGET_POSTAGE as int
    } else {
        0int
    })
}

/// What a well-formed commit request promises: the state fields all derive
/// from the sampled secret key, the commit script pays to the tweaked output
/// key, the reveal layout follows the plan, and the target value covers the
/// estimated reveal fee, the postage and the premine.
pub open spec fn commit_request_ok(
    plan: Plan,
    network: Network,
    reveal_change: Seq<u8>,
    req: CommitRequest,
) -> bool {
    let sk = req.state.untweaked_secret@;
    let ivs = plan.inscriptions@.map_values(|i: Inscription| i@);
    let script = reveal_script_bytes(xonly_of(sk), ivs);
    let leaf = tap_leaf_hash_of(script);
    let tsk = tweaked_secret_of(sk, leaf);
    let inputs = expected_reveal_inputs(plan.parent_info, plan.reveal_satpoints@);
    let outputs = expected_reveal_outputs(
        plan.parent_info,
        plan.mode,
        plan.destinations@,
        plan.postages@,
        plan.etching,
        reveal_change,
    );
    &&& secret_key_valid(sk) && sk.len() == 32
    &&& req.state.inscriptions@.map_values(|i: Inscription| i@) == ivs
    &&& req.state.reveal_script@ == script
    &&& req.state.control_block@ == control_block_bytes(
        xonly_of(sk),
        tweaked_parity_of(sk, leaf),
    )
    &&& req.state.tweaked_secret@ == tsk && secret_key_valid(tsk) && tsk.len() == 32
    &&& req.state.taproot_address@ == p2tr_address_of(xonly_of(tsk), network_id(network))
    &&& req.commit_script@ == p2tr_script(xonly_of(tsk))
    &&& req.commit_input_index == (if plan.parent_info is Some {
        1int
    } else {
        0int
    }) + plan.reveal_satpoints@.len()
    &&& req.reveal_inputs@.map_values(|o: OutPointM| o@) == inputs
    &&& req.reveal_inputs@.len() == req.commit_input_index + 1
    &&& req.reveal_outputs@.map_values(|o: TxOutM| o@) == outputs
    &&& req.reveal_fee == plan.reveal_fee_rate * estimated_reveal_vsize(
        inputs,
        outputs,
        req.commit_input_index as int,
        script,
        req.state.control_block@,
        plan.etching is Some,
    )
    &&& req.total_postage == sum_values(plan.postages@)
    &&& req.target_value == req.reveal_fee + (if plan.mode != Mode::SatPoints {
        sum_values(plan.postages@)
    } else {
        0int
    }) + (if plan.etching matches Some(e) && e.premine > 0 {
        TARGET_POSTAGE as int
    } else {
        0int
    })
    &&& req.runestone == (match plan.etching {
        Some(e) => Some(
            planned_runestone(
                e,
                if e.premine > 0 {
                    Some(
                        ((if plan.parent_info is Some {
                            1int
                        } else {
                            0int
                        }) + plan.destinations@.len()) as u32,
                    )
                } else {
                    None
                },
            ),
        ),
        None => Option::<RunestoneM>::None,
    })
    &&& req.rune == (match plan.etching {
        Some(e) => Some(e.rune),
        None => Option::<SpacedRuneM>::None,
    })
    &&& (match req.rune_destination {
        Some(d) => plan.etching matches Some(e) && e.premine > 0 && d@ == reveal_change,
        None => !(plan.etching matches Some(e) && e.premine > 0),
    })
    &&& req.rune_vout == (if plan.etching matches Some(e) && e.premine > 0 {
        Some(((if plan.parent_info is Some {
            1int
        } else {
            0int
        }) + plan.destinations@.len()) as u32)
    } else {
        Option::<u32>::None
    })
    &&& (plan.etching matches Some(e) && !plan.no_limit ==> runestone_len_of(plan) <= 82)
}

/// The witness stack of input `i` once the commit input is signed: signature,
/// leaf script and control block there, nothing anywhere else (the remaining
/// inputs are signed later by the wallet).
pub open spec fn final_witness(
    i: int,
    idx: int,
    sig: Seq<u8>,
    script: Seq<u8>,
    control_block: Seq<u8>,
) -> Seq<Seq<u8>> {
    if i == idx {
        seq![sig, script, control_block]
    } else {
        Seq::empty()
    }
}

/// The transaction with the commit input's witness attached.
pub open spec fn with_commit_witness(
    t: TxV,
    idx: int,
    sig: Seq<u8>,
    script: Seq<u8>,
    control_block: Seq<u8>,
) -> TxV {
    TxV {
        input: Seq::new(
            t.input.len(),
            |i: int|
                TxInV { witness: final_witness(i, idx, sig, script, control_block), ..t.input[i] },
        ),
        ..t
    }
}

/// Every output is at or above its script's dust threshold.
pub open spec fn dust_ok(outputs: Seq<TxOutV>) -> bool {
    forall|j: int|
        0 <= j < outputs.len() ==> (#[trigger] outputs[j]).value >= dust_value(
            outputs[j].script_pubkey,
        )
}

pub open spec fn is_dust_err(r: Result<TransactionM, BatchError>) -> bool {
    match r {
        Err(BatchError::Dust { index: _ }) => true,
        _ => false,
    }
}

/// The BIP-341 sighash the commit input is signed over: computed over the
/// unsigned skeleton's base serialization, the prevouts, the commit input
/// index and the leaf script.
pub open spec fn reveal_sighash(
    inputs: Seq<OutPointV>,
    outputs: Seq<TxOutV>,
    etching: bool,
    idx: int,
    prevouts: Seq<(u64, Seq<u8>)>,
    script: Seq<u8>,
) -> Seq<u8> {
    crate::taproot::taproot_sighash_of(
        ser_tx(skeleton_tx(inputs, outputs, etching), false),
        prevouts,
        idx,
        script,
    )
}

/// The deterministic signature the commit input carries: BIP-340 over the
/// reveal sighash under the untweaked key. Signing is a pure function of the
/// persisted state and the commit output, so rebuilt reveals are
/// byte-identical.
pub open spec fn reveal_signature(
    inputs: Seq<OutPointV>,
    outputs: Seq<TxOutV>,
    etching: bool,
    idx: int,
    prevouts: Seq<(u64, Seq<u8>)>,
    script: Seq<u8>,
    sk: Seq<u8>,
) -> Seq<u8> {
    crate::taproot::schnorr_sig_of(sk, reveal_sighash(inputs, outputs, etching, idx, prevouts, script))
}

/// What a finalized reveal transaction is, in full: the skeleton for the
/// bound inputs and planned outputs, the commit input's witness holding
/// exactly the deterministic signature, the leaf script and the control
/// block, every output above dust, and the standard weight limit respected
/// unless lifted.
pub open spec fn finalized_reveal_ok(
    tx: TransactionM,
    inputs: Seq<OutPointV>,
    outputs: Seq<TxOutV>,
    idx: int,
    script: Seq<u8>,
    control_block: Seq<u8>,
    sk: Seq<u8>,
    prevouts: Seq<(u64, Seq<u8>)>,
    etching: bool,
    no_limit: bool,
) -> bool {
    let sig = reveal_signature(inputs, outputs, etching, idx, prevouts, script, sk);
    &&& sig.len() == 64
    &&& tx@ == with_commit_witness(skeleton_tx(inputs, outputs, etching), idx, sig, script, control_block)
    &&& dust_ok(outputs)
    &&& (!no_limit ==> tx_weight(tx@) <= MAX_STANDARD_TX_WEIGHT)
}

/// The weight the signed reveal will have; any 64-byte signature gives the
/// same weight, so the placeholder stands in.
pub open spec fn signed_reveal_weight(
    inputs: Seq<OutPointV>,
    outputs: Seq<TxOutV>,
    idx: int,
    script: Seq<u8>,
    control_block: Seq<u8>,
    etching: bool,
) -> nat {
    tx_weight(
        with_commit_witness(
            skeleton_tx(inputs, outputs, etching),
            idx,
            crate::plan::dummy_sig(),
            script,
            control_block,
        ),
    )
}

/// The conditions under which finalizing is owed success, weight and dust
/// aside: valid key material, a commit index inside a non-empty input list,
/// one prevout per input, a fee that fits 64 bits, and a skeleton within the
/// consensus decoder's read cap.
pub open spec fn finalize_feasible(
    inputs: Seq<OutPointV>,
    outputs: Seq<TxOutV>,
    idx: int,
    script: Seq<u8>,
    control_block: Seq<u8>,
    sk: Seq<u8>,
    n_prevouts: int,
    fee_rate: u64,
    etching: bool,
) -> bool {
    &&& secret_key_valid(sk)
    &&& 0 < inputs.len()
    &&& 0 <= idx < inputs.len()
    &&& n_prevouts == inputs.len()
    &&& fee_rate * estimated_reveal_vsize(inputs, outputs, idx, script, control_block, etching)
        <= u64::MAX
    &&& ser_tx(skeleton_tx(inputs, outputs, etching), false).len() <= 4_000_000
}

/// Builds the reveal with the commit outpoint bound, checks every output
/// against dust, signs the commit input over the BIP-341 script-path sighash
/// and enforces the standard weight limit.
#[verifier::rlimit(100)]
pub fn finalize_reveal(
    commit_input_index: usize,
    reveal_inputs: Vec<OutPointM>,
    reveal_outputs: Vec<TxOutM>,
    reveal_script: &Vec<u8>,
    control_block: &Vec<u8>,
    untweaked_secret: &Vec<u8>,
    prevouts: &Vec<TxOutM>,
    fee_rate: u64,
    etching: bool,
    no_limit: bool,
) -> (r: Result<TransactionM, BatchError>)
    requires
        commit_input_index < reveal_inputs@.len(),
    ensures
        ({
            let inputs = reveal_inputs@.map_values(|o: OutPointM| o@);
            let outputs = reveal_outputs@.map_values(|o: TxOutM| o@);
            let idx = commit_input_index as int;
            let feasible = finalize_feasible(
                inputs,
                outputs,
                idx,
                reveal_script@,
                control_block@,
                untweaked_secret@,
                prevouts@.len() as int,
                fee_rate,
                etching,
            );
            let weight_fine = no_limit || signed_reveal_weight(
                inputs,
                outputs,
                idx,
                reveal_script@,
                control_block@,
                etching,
            ) <= MAX_STANDARD_TX_WEIGHT;
            &&& (r matches Ok(tx) ==> finalized_reveal_ok(
                tx,
                inputs,
                outputs,
                idx,
                reveal_script@,
                control_block@,
                untweaked_secret@,
                crate::taproot::prevouts_view(prevouts@),
                etching,
                no_limit,
            ))
            &&& (is_dust_err(r) <==> !dust_ok(outputs))
            &&& (r matches Err(e) ==> (e matches BatchError::Dust { index } ==> 0 <= index
                < outputs.len() && outputs[index as int].value < dust_value(
                outputs[index as int].script_pubkey,
            )))
            &&& (dust_ok(outputs) ==> ((r == Result::<TransactionM, BatchError>::Err(
                BatchError::ValueOverflow,
            )) <==> fee_rate * estimated_reveal_vsize(
                inputs,
                outputs,
                idx,
                reveal_script@,
                control_block@,
                etching,
            ) > u64::MAX))
            &&& (r matches Err(e) ==> (e == BatchError::KeyInvalid ==> !secret_key_valid(
                untweaked_secret@,
            )))
            &&& ((feasible && dust_ok(outputs)) ==> (r is Ok <==> weight_fine))
            &&& ((feasible && dust_ok(outputs)) ==> ((r == Result::<TransactionM, BatchError>::Err(
                BatchError::WeightExceeded,
            )) <==> !weight_fine))
            &&& (r matches Err(e) ==> (e == BatchError::WeightExceeded ==> !no_limit
                && signed_reveal_weight(
                inputs,
                outputs,
                idx,
                reveal_script@,
                control_block@,
                etching,
            ) > MAX_STANDARD_TX_WEIGHT))
            &&& (r matches Err(e) ==> (e matches BatchError::Dust { .. } || e
                == BatchError::ValueOverflow || e == BatchError::SighashFailed || e
                == BatchError::KeyInvalid || e == BatchError::WeightExceeded))
        }),
{
    let ghost inputs = reveal_inputs@.map_values(|o: OutPointM| o@);
    let ghost outputs = reveal_outputs@.map_values(|o: TxOutM| o@);
    // Dust rule on every output.
    let mut j: usize = 0;
    while j < reveal_outputs.len()
        invariant
            0 <= j <= reveal_outputs@.len(),
            outputs == reveal_outputs@.map_values(|o: TxOutM| o@),
            outputs.len() == reveal_outputs@.len(),
            forall|k: int|
                0 <= k < j ==> (#[trigger] outputs[k]).value >= dust_value(
                    outputs[k].script_pubkey,
                ),
        decreases reveal_outputs@.len() - j,
    {
        let threshold = crate::script::compute_dust_value(&reveal_outputs[j].script_pubkey);
        proof {
            assert(outputs[j as int] == reveal_outputs@[j as int]@);
        }
        if (reveal_outputs[j].value as u128) < threshold {
            return Err(BatchError::Dust { index: j });
        }
        j = j + 1;
    }
    proof {
        assert(dust_ok(outputs));
    }
    // The skeleton with the commit outpoint bound.
    let built = Plan::build_reveal_transaction(
        commit_input_index,
        control_block,
        fee_rate,
        reveal_outputs,
        reveal_inputs,
        reveal_script,
        etching,
    );
    let tx = match built {
        Ok(p) => p.0,
        Err(_) => {
            return Err(BatchError::ValueOverflow);
        },
    };
    // BIP-341 script-path sighash over the unsigned transaction.
    let tx_bytes = crate::tx::serialize_tx(&tx, false);
    proof {
        assert(!crate::tx::tx_has_witness(tx@)) by {
            if crate::tx::tx_has_witness(tx@) {
                let i = choose|i: int|
                    0 <= i < tx@.input.len() && #[trigger] tx@.input[i].witness.len() > 0;
                assert(tx@.input[i].witness =~= Seq::<Seq<u8>>::empty());
            }
        }
    }
    let sighash = match crate::taproot::compute_taproot_sighash(
        &tx_bytes,
        prevouts,
        commit_input_index,
        reveal_script,
    ) {
        Some(h) => h,
        None => {
            proof {
                let feasible = finalize_feasible(
                    inputs,
                    outputs,
                    commit_input_index as int,
                    reveal_script@,
                    control_block@,
                    untweaked_secret@,
                    prevouts@.len() as int,
                    fee_rate,
                    etching,
                );
                if feasible {
                    assert(tx_bytes@ == crate::tx::ser_tx(tx@, false));
                    assert(false);
                }
            }
            return Err(BatchError::SighashFailed);
        },
    };
    let sig = match crate::taproot::sign_schnorr(untweaked_secret, &sighash) {
        Some(s) => s,
        None => {
            return Err(BatchError::KeyInvalid);
        },
    };
    // Attach the witness to the commit input.
    let ghost sigv = sig@;
    let ghost base = skeleton_tx(inputs, outputs, etching);
    let mut signed_ins: Vec<TxInM> = Vec::new();
    let mut i: usize = 0;
    while i < tx.input.len()
        invariant
            0 <= i <= tx.input@.len(),
            tx@ == base,
            base.input.len() == tx.input@.len(),
            sigv.len() == 64,
            sig@ == sigv,
            signed_ins@.len() == i,
            forall|k: int|
                0 <= k < i ==> #[trigger] signed_ins@[k]@ == (TxInV {
                    witness: final_witness(
                        k,
                        commit_input_index as int,
                        sigv,
                        reveal_script@,
                        control_block@,
                    ),
                    ..base.input[k]
                }),
        decreases tx.input@.len() - i,
    {
        let txin = &tx.input[i];
        let mut witness: Vec<Vec<u8>> = Vec::new();
        if i == commit_input_index {
            witness.push(clone_bytes(&sig));
            witness.push(clone_bytes(reveal_script));
            witness.push(clone_bytes(control_block));
            proof {
                assert(witness@.len() == 3);
                assert(witness@[0]@ == sigv);
                assert(witness@[1]@ == reveal_script@);
                assert(witness@[2]@ == control_block@);
            }
        }
        signed_ins.push(
            TxInM {
                previous_output: clone_outpoint(&txin.previous_output),
                sequence: txin.sequence,
                witness,
            },
        );
        proof {
            assert(base.input[i as int] == tx.input@[i as int]@);
            if i == commit_input_index {
                assert(signed_ins@[i as int]@.witness =~= final_witness(
                    i as int,
                    commit_input_index as int,
                    sigv,
                    reveal_script@,
                    control_block@,
                ));
            } else {
                assert(signed_ins@[i as int]@.witness =~= final_witness(
                    i as int,
                    commit_input_index as int,
                    sigv,
                    reveal_script@,
                    control_block@,
                ));
            }
        }
        i = i + 1;
    }
    let signed = TransactionM {
        version: tx.version,
        lock_time: tx.lock_time,
        input: signed_ins,
        output: tx.output,
    };
    proof {
        assert(signed@.input =~= with_commit_witness(
            base,
            commit_input_index as int,
            sigv,
            reveal_script@,
            control_block@,
        ).input);
        assert(signed@.output =~= base.output);
        assert(signed@ == with_commit_witness(
            base,
            commit_input_index as int,
            sigv,
            reveal_script@,
            control_block@,
        ));
    }
    // Standard weight limit.
    let weight = crate::tx::compute_weight(&signed);
    proof {
        let dummy = with_commit_witness(
            base,
            commit_input_index as int,
            crate::plan::dummy_sig(),
            reveal_script@,
            control_block@,
        );
        crate::tx::lemma_tx_weight_witness_lengths(signed@, dummy);
        assert(sigv == reveal_signature(
            inputs,
            outputs,
            etching,
            commit_input_index as int,
            crate::taproot::prevouts_view(prevouts@),
            reveal_script@,
            untweaked_secret@,
        ));
    }
    if !no_limit && weight > MAX_STANDARD_TX_WEIGHT as u128 {
        return Err(BatchError::WeightExceeded);
    }
    Ok(signed)
}

/// What the rune output record of a completed batch holds.
#[derive(Debug)]
pub struct RuneInfoM {
    /// The premine destination script, when there was a premine.
    pub destination: Option<Vec<u8>>,
    /// The premine output's location in the reveal, when there was one.
    pub location: Option<OutPointM>,
    /// The rune's name and spacers.
    pub rune: SpacedRuneM,
}

/// The completed transaction pair.
#[derive(Debug)]
pub struct Transactions {
    pub commit_tx: TransactionM,
    pub commit_vout: usize,
    pub reveal_tx: TransactionM,
    pub total_fees: u64,
    pub rune: Option<RuneInfoM>,
}

/// The first output paying to `script`, if any.
pub fn find_output_by_script(outputs: &Vec<TxOutM>, script: &Vec<u8>) -> (r: Option<usize>)
    ensures
        ({
            let outs = outputs@.map_values(|o: TxOutM| o@);
            &&& (r matches Some(j) ==> 0 <= j < outs.len() && outs[j as int].script_pubkey
                == script@ && (forall|k: int|
                0 <= k < j ==> (#[trigger] outs[k]).script_pubkey != script@))
            &&& (r is None <==> (forall|k: int|
                0 <= k < outs.len() ==> (#[trigger] outs[k]).script_pubkey != script@))
        }),
{
    let ghost outs = outputs@.map_values(|o: TxOutM| o@);
    let mut j: usize = 0;
    while j < outputs.len()
        invariant
            0 <= j <= outputs@.len(),
            outs == outputs@.map_values(|o: TxOutM| o@),
            outs.len() == outputs@.len(),
            forall|k: int| 0 <= k < j ==> (#[trigger] outs[k]).script_pubkey != script@,
        decreases outputs@.len() - j,
    {
        proof {
            assert(outs[j as int] == outputs@[j as int]@);
        }
        if bytes_eq(&outputs[j].script_pubkey, script) {
            return Some(j);
        }
        j = j + 1;
    }
    None
}

/// The reveal inputs with the commit outpoint bound in place of the
/// placeholder.
pub fn bind_commit_input(inputs: &Vec<OutPointM>, idx: usize, op: OutPointM) -> (r: Vec<
    OutPointM,
>)
    requires
        idx < inputs@.len(),
    ensures
        r@.map_values(|o: OutPointM| o@) == inputs@.map_values(|o: OutPointM| o@).update(
            idx as int,
            op@,
        ),
        r@.len() == inputs@.len(),
{
    let ghost opv = op@;
    let mut out: Vec<OutPointM> = Vec::new();
    let mut i: usize = 0;
    while i < inputs.len()
        invariant
            0 <= i <= inputs@.len(),
            idx < inputs@.len(),
            op@ == opv,
            out@.len() == i,
            forall|j: int|
                0 <= j < i ==> #[trigger] out@[j]@ == (if j == idx {
                    opv
                } else {
                    inputs@[j]@
                }),
        decreases inputs@.len() - i,
    {
        if i == idx {
            out.push(clone_outpoint(&op));
        } else {
            out.push(clone_outpoint(&inputs[i]));
        }
        i = i + 1;
    }
    proof {
        assert(out@.map_values(|o: OutPointM| o@) =~= inputs@.map_values(|o: OutPointM| o@).update(
            idx as int,
            opv,
        ));
    }
    out
}

/// The non-negative difference between what a transaction spends and what it
/// pays out, with unknown inputs counting as zero.
pub open spec fn fee_defaulted(t: TxV, uv: Seq<(OutPointV, TxOutV)>) -> int {
    let d = inputs_value(t.input, uv) - outputs_value(t.output);
    if d < 0 {
        0
    } else {
        d
    }
}

pub open spec fn clamp64(x: int) -> int {
    if x > u64::MAX {
        u64::MAX as int
    } else {
        x
    }
}

/// The conditions under which completing the batch is owed success: the
/// commit output exists, the outputs clear dust, the key is valid, the
/// request's arity matches the plan's prevouts, and the fee, size, weight
/// and fee-total bounds hold.
pub open spec fn completion_feasible(
    plan: Plan,
    req: CommitRequest,
    commit_tx: TransactionM,
    utxos: Seq<(OutPointM, TxOutM)>,
) -> bool {
    let outs = commit_tx@.output;
    let cvo = find_script(outs, req.commit_script@);
    let cv = cvo->Some_0;
    let ctxid = crate::taproot::sha256d_of(ser_tx(commit_tx@, false));
    let commit_op = OutPointV { txid: ctxid, vout: cv as u32 };
    let bound = req.reveal_inputs@.map_values(|o: OutPointM| o@).update(
        req.commit_input_index as int,
        commit_op,
    );
    let outputs = req.reveal_outputs@.map_values(|o: TxOutM| o@);
    let etching = req.runestone is Some;
    let script = req.state.reveal_script@;
    let cb = req.state.control_block@;
    let uv_ext = utxos_view(utxos).push((commit_op, outs[cv]));
    &&& cvo is Some
    &&& 0 <= cv < 0x1_0000_0000
    &&& dust_ok(outputs)
    &&& secret_key_valid(req.state.untweaked_secret@)
    &&& req.commit_input_index as int + 1 == req.reveal_inputs@.len()
    &&& (if plan.parent_info is Some {
        1int
    } else {
        0int
    }) + (if plan.mode == Mode::SatPoints {
        plan.reveal_satpoints@.len() as int
    } else {
        0int
    }) + 1 == req.reveal_inputs@.len()
    &&& plan.reveal_fee_rate * estimated_reveal_vsize(
        bound,
        outputs,
        req.commit_input_index as int,
        script,
        cb,
        etching,
    ) <= u64::MAX
    &&& ser_tx(skeleton_tx(bound, outputs, etching), false).len() <= 4_000_000
    &&& (plan.no_limit || signed_reveal_weight(
        bound,
        outputs,
        req.commit_input_index as int,
        script,
        cb,
        etching,
    ) <= MAX_STANDARD_TX_WEIGHT)
    &&& clamp64(fee_defaulted(commit_tx@, utxos_view(utxos))) + clamp64(
        fee_defaulted(skeleton_tx(bound, outputs, etching), uv_ext),
    ) <= u64::MAX
}

impl Plan {
    /// Completes the batch against the externally funded commit transaction:
    /// finds the commit output, binds its outpoint into the reveal, signs
    /// the commit input and totals the fees of the pair. The returned state
    /// is what Phase 2 would need, unchanged.
    #[verifier::rlimit(100)]
    pub fn create_batch_transactions(
        &self,
        req: CommitRequest,
        commit_tx: TransactionM,
        utxos: &Vec<(OutPointM, TxOutM)>,
    ) -> (r: Result<(Transactions, TaprootData), BatchError>)
        requires
            req.commit_input_index < req.reveal_inputs@.len(),
        ensures
            r matches Ok(p) ==> batch_transactions_ok(
                *self,
                req,
                commit_tx,
                utxos@,
                p.0,
                p.1,
            ),
            (r == Result::<(Transactions, TaprootData), BatchError>::Err(
                BatchError::CommitOutputMissing,
            )) <==> (forall|k: int|
                0 <= k < commit_tx@.output.len() ==> (#[trigger] commit_tx@.output[k]).script_pubkey
                    != req.commit_script@),
            (find_script(commit_tx@.output, req.commit_script@) is Some ==> (is_dust_err_pair(r)
                <==> !dust_ok(req.reveal_outputs@.map_values(|o: TxOutM| o@)))),
            r matches Err(e) ==> (e == BatchError::CommitOutputMissing || (e
                matches BatchError::Dust { .. }) || e == BatchError::ValueOverflow || e
                == BatchError::SighashFailed || e == BatchError::KeyInvalid || e
                == BatchError::WeightExceeded),
            completion_feasible(*self, req, commit_tx, utxos@) ==> r is Ok,
    {
        let commit_vout = match find_output_by_script(&commit_tx.output, &req.commit_script) {
            Some(v) => v,
            None => {
                proof {
                    lemma_find_script_none(commit_tx@.output, req.commit_script@);
                }
                return Err(BatchError::CommitOutputMissing);
            },
        };
        proof {
            lemma_find_script_first(commit_tx@.output, req.commit_script@, commit_vout as int);
        }
        let commit_txid = crate::taproot::sha256d(&crate::tx::serialize_tx(&commit_tx, false));
        let commit_outpoint = OutPointM { txid: commit_txid, vout: commit_vout as u32 };
        let bound_inputs = bind_commit_input(
            &req.reveal_inputs,
            req.commit_input_index,
            clone_outpoint(&commit_outpoint),
        );
        // Prevouts in input order: parent, satpoints, commit output.
        let mut prevouts: Vec<TxOutM> = Vec::new();
        let parent_count: usize = match &self.parent_info {
            Some(parent) => {
                prevouts.push(clone_txout(&parent.tx_out));
                1
            },
            None => 0,
        };
        let satpoint_count: usize = if matches!(self.mode, Mode::SatPoints) {
            let mut k: usize = 0;
            while k < self.reveal_satpoints.len()
                invariant
                    0 <= k <= self.reveal_satpoints@.len(),
                    parent_count == (if self.parent_info is Some {
                        1int
                    } else {
                        0int
                    }),
                    prevouts@.len() == parent_count + k,
                    (self.parent_info matches Some(parent) ==> prevouts@[0]@ == parent.tx_out@),
                    forall|j: int|
                        0 <= j < k ==> #[trigger] prevouts@[parent_count + j]@
                            == self.reveal_satpoints@[j].1@,
                decreases self.reveal_satpoints@.len() - k,
            {
                prevouts.push(clone_txout(&self.reveal_satpoints[k].1));
                k = k + 1;
            }
            k
        } else {
            0
        };
        prevouts.push(clone_txout(&commit_tx.output[commit_vout]));
        proof {
            let want = expected_prevouts(*self, commit_tx@.output[commit_vout as int]);
            let got = crate::taproot::prevouts_view(prevouts@);
            assert(got.len() == want.len());
            assert forall|j: int| 0 <= j < got.len() implies got[j] == want[j] by {
                assert(got[j] == (prevouts@[j]@.value, prevouts@[j]@.script_pubkey));
                if j < parent_count {
                } else if j < parent_count + satpoint_count {
                    assert(prevouts@[parent_count + (j - parent_count)]@
                        == self.reveal_satpoints@[j - parent_count].1@);
                    assert(self.reveal_satpoints@.map_values(
                        |e: (SatPointM, TxOutM)| (e.1@.value, e.1@.script_pubkey),
                    )[j - parent_count] == (
                        self.reveal_satpoints@[j - parent_count].1@.value,
                        self.reveal_satpoints@[j - parent_count].1@.script_pubkey,
                    ));
                } else {
                    assert(j == parent_count + satpoint_count);
                }
            }
            assert(got =~= want);
        }
        let etching_present = match &req.runestone {
            Some(_) => true,
            None => false,
        };
        let reveal_tx = match finalize_reveal(
            req.commit_input_index,
            bound_inputs,
            req.reveal_outputs,
            &req.state.reveal_script,
            &req.state.control_block,
            &req.state.untweaked_secret,
            &prevouts,
            self.reveal_fee_rate,
            etching_present,
            self.no_limit,
        ) {
            Ok(tx) => tx,
            Err(e) => {
                proof {
                    if completion_feasible(*self, req, commit_tx, utxos@) {
                        assert(false);
                    }
                }
                return Err(e);
            },
        };
        // Fee accounting over the wallet's outputs plus the commit output.
        let mut utxos_ext: Vec<(OutPointM, TxOutM)> = Vec::new();
        let mut u: usize = 0;
        while u < utxos.len()
            invariant
                0 <= u <= utxos@.len(),
                utxos_ext@.len() == u,
                forall|j: int|
                    0 <= j < u ==> #[trigger] utxos_ext@[j].0@ == utxos@[j].0@ && utxos_ext@[j].1@
                        == utxos@[j].1@,
            decreases utxos@.len() - u,
        {
            utxos_ext.push((clone_outpoint(&utxos[u].0), clone_txout(&utxos[u].1)));
            u = u + 1;
        }
        utxos_ext.push(
            (clone_outpoint(&commit_outpoint), clone_txout(&commit_tx.output[commit_vout])),
        );
        proof {
            assert(utxos_view(utxos_ext@) =~= utxos_view(utxos@).push(
                (commit_outpoint@, commit_tx@.output[commit_vout as int]),
            ));
        }
        let commit_fee = Plan::calculate_fee_defaulted(&commit_tx, utxos);
        let reveal_fee = Plan::calculate_fee_defaulted(&reveal_tx, &utxos_ext);
        let total_fees = match commit_fee.checked_add(reveal_fee) {
            Some(v) => v,
            None => {
                proof {
                    let outputs = req.reveal_outputs@.map_values(|o: TxOutM| o@);
                    let bound = req.reveal_inputs@.map_values(|o: OutPointM| o@).update(
                        req.commit_input_index as int,
                        commit_outpoint@,
                    );
                    let skel = skeleton_tx(bound, outputs, etching_present);
                    crate::plan::lemma_inputs_value_prevouts(
                        reveal_tx@.input,
                        skel.input,
                        utxos_view(utxos_ext@),
                    );
                    if completion_feasible(*self, req, commit_tx, utxos@) {
                        assert(false);
                    }
                }
                return Err(BatchError::ValueOverflow);
            },
        };
        let reveal_txid = crate::taproot::sha256d(&crate::tx::serialize_tx(&reveal_tx, false));
        let rune = match req.rune {
            Some(sr) => Some(
                RuneInfoM {
                    destination: req.rune_destination,
                    location: match req.rune_vout {
                        Some(v) => Some(OutPointM { txid: reveal_txid, vout: v }),
                        None => None,
                    },
                    rune: sr,
                },
            ),
            None => None,
        };
        Ok(
            (
                Transactions {
                    commit_tx,
                    commit_vout,
                    reveal_tx,
                    total_fees,
                    rune,
                },
                req.state,
            ),
        )
    }
}

/// The prevouts the reveal is signed over, in input order: the parent's
/// output, the satpoint outputs in `SatPoints` mode, then the commit output.
pub open spec fn expected_prevouts(plan: Plan, commit_out: TxOutV) -> Seq<(u64, Seq<u8>)> {
    (match plan.parent_info {
        Some(p) => seq![(p.tx_out@.value, p.tx_out@.script_pubkey)],
        None => Seq::empty(),
    }) + (if plan.mode == Mode::SatPoints {
        plan.reveal_satpoints@.map_values(|e: (SatPointM, TxOutM)| (e.1@.value, e.1@.script_pubkey))
    } else {
        Seq::empty()
    }) + seq![(commit_out.value, commit_out.script_pubkey)]
}

/// The index of the first output paying to `script`, if any.
pub open spec fn find_script(outs: Seq<TxOutV>, script: Seq<u8>) -> Option<int>
    decreases outs.len(),
{
    if outs.len() == 0 {
        None
    } else if outs[0].script_pubkey == script {
        Some(0)
    } else {
        match find_script(outs.drop_first(), script) {
            Some(j) => Some(j + 1),
            None => None,
        }
    }
}

/// First-match facts determine `find_script`.
pub proof fn lemma_find_script_first(outs: Seq<TxOutV>, script: Seq<u8>, j: int)
    requires
        0 <= j < outs.len(),
        outs[j].script_pubkey == script,
        forall|k: int| 0 <= k < j ==> (#[trigger] outs[k]).script_pubkey != script,
    ensures
        find_script(outs, script) == Some(j),
    decreases j,
{
    if j > 0 {
        assert(outs.drop_first()[j - 1] == outs[j]);
        assert(forall|k: int|
            0 <= k < j - 1 ==> (#[trigger] outs.drop_first()[k]).script_pubkey != script);
        lemma_find_script_first(outs.drop_first(), script, j - 1);
    }
}

pub proof fn lemma_find_script_none(outs: Seq<TxOutV>, script: Seq<u8>)
    requires
        forall|k: int| 0 <= k < outs.len() ==> (#[trigger] outs[k]).script_pubkey != script,
    ensures
        find_script(outs, script) is None,
    decreases outs.len(),
{
    if outs.len() > 0 {
        assert(forall|k: int|
            0 <= k < outs.drop_first().len() ==> (#[trigger] outs.drop_first()[k]).script_pubkey
                != script);
        lemma_find_script_none(outs.drop_first(), script);
    }
}

pub open spec fn is_dust_err_pair(r: Result<(Transactions, TaprootData), BatchError>) -> bool {
    match r {
        Err(BatchError::Dust { index: _ }) => true,
        _ => false,
    }
}

/// What a completed batch promises: the commit output is the first paying to
/// the commit script, the reveal spends it at the commit input, the reveal
/// is finalized per `finalized_reveal_ok`, and the total fee is the pair's.
pub open spec fn batch_transactions_ok(
    plan: Plan,
    req: CommitRequest,
    commit_tx: TransactionM,
    utxos: Seq<(OutPointM, TxOutM)>,
    t: Transactions,
    state: TaprootData,
) -> bool {
    let outs = commit_tx@.output;
    let cv = t.commit_vout as int;
    let ctxid = crate::taproot::sha256d_of(ser_tx(commit_tx@, false));
    let commit_op = OutPointV { txid: ctxid, vout: t.commit_vout as u32 };
    let bound = req.reveal_inputs@.map_values(|o: OutPointM| o@).update(
        req.commit_input_index as int,
        commit_op,
    );
    let outputs = req.reveal_outputs@.map_values(|o: TxOutM| o@);
    let uv_ext = utxos_view(utxos).push((commit_op, outs[cv]));
    &&& 0 <= cv < outs.len()
    &&& outs[cv].script_pubkey == req.commit_script@
    &&& (forall|k: int| 0 <= k < cv ==> (#[trigger] outs[k]).script_pubkey != req.commit_script@)
    &&& t.commit_tx == commit_tx
    &&& finalized_reveal_ok(
        t.reveal_tx,
        bound,
        outputs,
        req.commit_input_index as int,
        req.state.reveal_script@,
        req.state.control_block@,
        req.state.untweaked_secret@,
        expected_prevouts(plan, outs[cv]),
        req.runestone is Some,
        plan.no_limit,
    )
    &&& t.reveal_tx@.input[req.commit_input_index as int].previous_output == commit_op
    &&& t.total_fees == clamp64(fee_defaulted(commit_tx@, utxos_view(utxos))) + clamp64(
        fee_defaulted(t.reveal_tx@, uv_ext),
    )
    &&& state == req.state
    &&& (t.rune is Some <==> req.rune is Some)
    &&& (t.rune matches Some(info) ==> ({
        &&& info.rune == req.rune->Some_0
        &&& info.destination == req.rune_destination
        &&& (match (info.location, req.rune_vout) {
            (Some(op), Some(v)) => op@ == (OutPointV {
                txid: crate::taproot::sha256d_of(ser_tx(t.reveal_tx@, false)),
                vout: v,
            }),
            (None, None) => true,
            _ => false,
        })
    }))
}

/// What a resumed reveal promises: the persisted tweaked key re-derives the
/// commit address, the commit output is found by its script, and the reveal
/// is finalized over exactly that outpoint with one destination output.
pub open spec fn resumed_reveal_ok(
    state: TaprootData,
    commit_tx: TransactionM,
    destination: Vec<u8>,
    postage: u64,
    network: Network,
    rr: RevealResume,
) -> bool {
    let tsk = state.tweaked_secret@;
    let commit_script = p2tr_script(xonly_of(tsk));
    let outs = commit_tx@.output;
    let cv = rr.commit_vout as int;
    let ctxid = crate::taproot::sha256d_of(ser_tx(commit_tx@, false));
    let commit_op = OutPointV { txid: ctxid, vout: rr.commit_vout as u32 };
    let inputs = seq![commit_op];
    let outputs = seq![TxOutV { value: postage, script_pubkey: destination@ }];
    &&& secret_key_valid(tsk)
    &&& state.taproot_address@ == p2tr_address_of(xonly_of(tsk), network_id(network))
    &&& 0 <= cv < outs.len()
    &&& outs[cv].script_pubkey == commit_script
    &&& (forall|k: int| 0 <= k < cv ==> (#[trigger] outs[k]).script_pubkey != commit_script)
    &&& finalized_reveal_ok(
        rr.reveal_tx,
        inputs,
        outputs,
        0,
        state.reveal_script@,
        state.control_block@,
        state.untweaked_secret@,
        seq![(outs[cv].value, outs[cv].script_pubkey)],
        false,
        false,
    )
    &&& rr.reveal_tx@.input[0].previous_output == commit_op
    &&& rr.total_fees == clamp64(
        fee_defaulted(rr.reveal_tx@, commit_outputs_view(commit_tx@)),
    )
}

/// The commit transaction's own outputs as an unspent-output list.
pub open spec fn commit_outputs_view(c: TxV) -> Seq<(OutPointV, TxOutV)> {
    let ctxid = crate::taproot::sha256d_of(ser_tx(c, false));
    Seq::new(
        c.output.len(),
        |i: int| (OutPointV { txid: ctxid, vout: i as u32 }, c.output[i]),
    )
}

/// The reveal rebuilt from persisted state.
#[derive(Debug)]
pub struct RevealResume {
    pub reveal_tx: TransactionM,
    pub commit_vout: usize,
    pub total_fees: u64,
}

/// The conditions under which resuming is owed success: valid persisted
/// keys, a matching recorded address, a commit output paying to the tweaked
/// key, a destination postage above dust, and the fee, size and weight
/// bounds.
pub open spec fn resume_feasible(
    state: TaprootData,
    commit_tx: TransactionM,
    destination: Vec<u8>,
    postage: u64,
    fee_rate: u64,
    network: Network,
) -> bool {
    let tsk = state.tweaked_secret@;
    let commit_script = p2tr_script(xonly_of(tsk));
    let outs = commit_tx@.output;
    let cvo = find_script(outs, commit_script);
    let cv = cvo->Some_0;
    let ctxid = crate::taproot::sha256d_of(ser_tx(commit_tx@, false));
    let inputs = seq![OutPointV { txid: ctxid, vout: cv as u32 }];
    let outputs = seq![TxOutV { value: postage, script_pubkey: destination@ }];
    &&& secret_key_valid(tsk)
    &&& secret_key_valid(state.untweaked_secret@)
    &&& state.taproot_address@ == p2tr_address_of(xonly_of(tsk), network_id(network))
    &&& cvo is Some
    &&& 0 <= cv < 0x1_0000_0000
    &&& postage >= dust_value(destination@)
    &&& fee_rate * estimated_reveal_vsize(
        inputs,
        outputs,
        0,
        state.reveal_script@,
        state.control_block@,
        false,
    ) <= u64::MAX
    &&& ser_tx(skeleton_tx(inputs, outputs, false), false).len() <= 4_000_000
    &&& signed_reveal_weight(
        inputs,
        outputs,
        0,
        state.reveal_script@,
        state.control_block@,
        false,
    ) <= MAX_STANDARD_TX_WEIGHT
}

/// Phase 2: rebuilds and signs the reveal from the persisted state and the
/// mined commit transaction. The persisted tweaked key must re-derive the
/// recorded commit address; a mismatch signals persistence corruption.
#[verifier::rlimit(100)]
pub fn resume_reveal(
    state: &TaprootData,
    commit_tx: &TransactionM,
    destination: Vec<u8>,
    postage: u64,
    fee_rate: u64,
    network: Network,
) -> (r: Result<RevealResume, BatchError>)
    ensures
        r matches Ok(rr) ==> resumed_reveal_ok(*state, *commit_tx, destination, postage, network, rr),
        r matches Err(e) ==> (e == BatchError::KeyInvalid ==> !secret_key_valid(
            state.tweaked_secret@,
        ) || !secret_key_valid(state.untweaked_secret@)),
        r matches Err(e) ==> (e == BatchError::TweakedKeyMismatch ==> secret_key_valid(
            state.tweaked_secret@,
        ) && state.taproot_address@ != p2tr_address_of(
            xonly_of(state.tweaked_secret@),
            network_id(network),
        )),
        r matches Err(e) ==> (e == BatchError::CommitOutputMissing ==> (forall|k: int|
            0 <= k < commit_tx@.output.len() ==> (#[trigger] commit_tx@.output[k]).script_pubkey
                != p2tr_script(xonly_of(state.tweaked_secret@)))),
        r matches Err(e) ==> (e == BatchError::KeyInvalid || e == BatchError::TweakedKeyMismatch
            || e == BatchError::CommitOutputMissing || (e matches BatchError::Dust { .. }) || e
            == BatchError::ValueOverflow || e == BatchError::SighashFailed || e
            == BatchError::WeightExceeded),
        resume_feasible(*state, *commit_tx, destination, postage, fee_rate, network) ==> r is Ok,
{
    // Cross-check: the persisted tweaked key must re-derive the address.
    let tweaked_pub = match crate::taproot::xonly_pubkey(&state.tweaked_secret) {
        Some(p) => p,
        None => {
            return Err(BatchError::KeyInvalid);
        },
    };
    let derived = match crate::taproot::p2tr_address_string(&tweaked_pub, network) {
        Some(a) => a,
        None => {
            // The tweaked public key serializes to a valid x-only key, so
            // the address is always available.
            proof {
                assert(false);
            }
            return Err(BatchError::KeyInvalid);
        },
    };
    if !(derived == state.taproot_address) {
        return Err(BatchError::TweakedKeyMismatch);
    }
    // Locate the commit output.
    let commit_script = crate::script::build_p2tr_script(&tweaked_pub);
    let commit_vout = match find_output_by_script(&commit_tx.output, &commit_script) {
        Some(v) => v,
        None => {
            proof {
                lemma_find_script_none(commit_tx@.output, commit_script@);
            }
            return Err(BatchError::CommitOutputMissing);
        },
    };
    proof {
        lemma_find_script_first(commit_tx@.output, commit_script@, commit_vout as int);
    }
    let commit_txid = crate::taproot::sha256d(&crate::tx::serialize_tx(commit_tx, false));
    let commit_outpoint = OutPointM { txid: clone_bytes(&commit_txid), vout: commit_vout as u32 };
    let mut reveal_inputs: Vec<OutPointM> = Vec::new();
    reveal_inputs.push(commit_outpoint);
    let mut reveal_outputs: Vec<TxOutM> = Vec::new();
    reveal_outputs.push(TxOutM { value: postage, script_pubkey: destination });
    let mut prevouts: Vec<TxOutM> = Vec::new();
    prevouts.push(clone_txout(&commit_tx.output[commit_vout]));
    proof {
        assert(crate::taproot::prevouts_view(prevouts@) =~= seq![
            (
                commit_tx@.output[commit_vout as int].value,
                commit_tx@.output[commit_vout as int].script_pubkey,
            ),
        ]);
    }
    let ghost inputsv = reveal_inputs@.map_values(|o: OutPointM| o@);
    let ghost outputsv = reveal_outputs@.map_values(|o: TxOutM| o@);
    let reveal_tx = match finalize_reveal(
        0,
        reveal_inputs,
        reveal_outputs,
        &state.reveal_script,
        &state.control_block,
        &state.untweaked_secret,
        &prevouts,
        fee_rate,
        false,
        false,
    ) {
        Ok(tx) => tx,
        Err(e) => {
            proof {
                if resume_feasible(*state, *commit_tx, destination, postage, fee_rate, network) {
                    assert(outputsv =~= seq![
                        TxOutV { value: postage, script_pubkey: destination@ },
                    ]);
                    assert(dust_ok(outputsv));
                    assert(inputsv =~= seq![
                        OutPointV {
                            txid: crate::taproot::sha256d_of(ser_tx(commit_tx@, false)),
                            vout: commit_vout as u32,
                        },
                    ]);
                    assert(false);
                }
            }
            let out = match e {
                BatchError::KeyInvalid => BatchError::KeyInvalid,
                other => other,
            };
            return Err(out);
        },
    };
    // Fee over the commit transaction's outputs.
    let mut utxos: Vec<(OutPointM, TxOutM)> = Vec::new();
    let mut k: usize = 0;
    while k < commit_tx.output.len()
        invariant
            0 <= k <= commit_tx.output@.len(),
            commit_txid@ == crate::taproot::sha256d_of(ser_tx(commit_tx@, false)),
            commit_tx@.output.len() == commit_tx.output@.len(),
            utxos@.len() == k,
            forall|j: int|
                0 <= j < k ==> #[trigger] utxos@[j].0@ == (OutPointV {
                    txid: commit_txid@,
                    vout: j as u32,
                }) && utxos@[j].1@ == commit_tx@.output[j],
        decreases commit_tx.output@.len() - k,
    {
        proof {
            assert(commit_tx@.output[k as int] == commit_tx.output@[k as int]@);
        }
        utxos.push(
            (
                OutPointM { txid: clone_bytes(&commit_txid), vout: k as u32 },
                clone_txout(&commit_tx.output[k]),
            ),
        );
        k = k + 1;
    }
    proof {
        assert(utxos_view(utxos@) =~= commit_outputs_view(commit_tx@));
    }
    let total_fees = Plan::calculate_fee_defaulted(&reveal_tx, &utxos);
    proof {
        assert(inputsv =~= seq![
            OutPointV {
                txid: crate::taproot::sha256d_of(ser_tx(commit_tx@, false)),
                vout: commit_vout as u32,
            },
        ]);
        assert(outputsv =~= seq![TxOutV { value: postage, script_pubkey: destination@ }]);
    }
    Ok(RevealResume { reveal_tx, commit_vout, total_fees })
}

/// Two finalized reveals over the same state and commit output are the same
/// transaction, byte for byte, signature included: signing is deterministic,
/// so rebuilding the reveal is idempotent.
pub proof fn lemma_reveal_idempotent(
    t1: TransactionM,
    t2: TransactionM,
    inputs: Seq<OutPointV>,
    outputs: Seq<TxOutV>,
    idx: int,
    script: Seq<u8>,
    control_block: Seq<u8>,
    sk: Seq<u8>,
    prevouts: Seq<(u64, Seq<u8>)>,
    etching: bool,
    no_limit: bool,
)
    requires
        finalized_reveal_ok(
            t1,
            inputs,
            outputs,
            idx,
            script,
            control_block,
            sk,
            prevouts,
            etching,
            no_limit,
        ),
        finalized_reveal_ok(
            t2,
            inputs,
            outputs,
            idx,
            script,
            control_block,
            sk,
            prevouts,
            etching,
            no_limit,
        ),
    ensures
        t1@ == t2@,
        ser_tx(t1@, true) == ser_tx(t2@, true),
        ser_tx(t1@, false) == ser_tx(t2@, false),
{
}

} // verus!
