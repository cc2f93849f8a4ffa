//! The record a finished flow reports: transaction ids, per-inscription
//! destinations and locations, and the optional PSBTs of a dry run.

use vstd::prelude::*;
use crate::envelope::{InscriptionId, InscriptionIdV};
use crate::flow::RuneInfoM;
use crate::plan::{sum_values, BatchError, Mode, Plan, SatPointM, lemma_sum_values_take, lemma_sum_prefix_bound, lemma_sum_values_nonneg};
use crate::tx::{ser_tx, OutPointM, OutPointV, TransactionM};

verus! {

/// How the record is printed.
#[derive(Clone, Copy, PartialEq, Eq, Structural, Debug)]
pub enum OutputFormat {
    Json,
    Yaml,
    Minify,
}

impl Default for OutputFormat {
    fn default() -> (r: OutputFormat)
        ensures
            r == OutputFormat::Json,
    {
        OutputFormat::Json
    }
}

/// Where one inscription of the batch ends up.
#[derive(Debug)]
pub struct InscriptionInfo {
    /// The inscription's id: the reveal txid and its index in the batch.
    pub id: InscriptionId,
    /// The destination output script.
    pub destination: Vec<u8>,
    /// The satpoint the inscription lands on.
    pub location: SatPointM,
}

/// The record of one inscribe flow.
#[derive(Debug)]
pub struct Output {
    /// The commit transaction id.
    pub commit: Vec<u8>,
    /// The commit PSBT, in a dry run.
    pub commit_psbt: Option<String>,
    /// One entry per inscription, in batch order.
    pub inscriptions: Vec<InscriptionInfo>,
    /// The parent inscription, when the batch created children.
    pub parent: Option<InscriptionId>,
    /// The reveal transaction id.
    pub reveal: Vec<u8>,
    /// Whether the reveal was broadcast.
    pub reveal_broadcast: bool,
    /// The reveal PSBT, in a dry run.
    pub reveal_psbt: Option<String>,
    /// The rune etched, if any.
    pub rune: Option<RuneInfoM>,
    /// The summed fee of the pair.
    pub total_fees: u64,
}

/// The reveal output index inscription `i` lands in.
pub open spec fn inscription_vout(mode: Mode, parent: bool, i: int) -> int {
    match mode {
        Mode::SharedOutput | Mode::SameSat => if parent {
            1
        } else {
            0
        },
        Mode::SeparateOutputs | Mode::SatPoints => if parent {
            i + 1
        } else {
            i
        },
    }
}

/// The offset of inscription `i` within its output: the summed postage of
/// the inscriptions before it in a shared output, zero otherwise.
pub open spec fn inscription_offset(mode: Mode, postages: Seq<u64>, i: int) -> int {
    match mode {
        Mode::SharedOutput => sum_values(postages.take(i)),
        Mode::SeparateOutputs | Mode::SameSat | Mode::SatPoints => 0,
    }
}

impl Plan {
    /// Assembles the flow's record: for each inscription its id on the
    /// reveal, its destination and its landing satpoint, by the plan's mode.
    #[verifier::rlimit(100)]
    pub fn output(
        &self,
        commit: Vec<u8>,
        commit_psbt: Option<String>,
        reveal: Vec<u8>,
        reveal_broadcast: bool,
        reveal_psbt: Option<String>,
        total_fees: u64,
        rune: Option<RuneInfoM>,
    ) -> (r: Output)
        requires
            self.arity_ok(),
            self.inscriptions@.len() < 0x1_0000_0000,
            sum_values(self.postages@) <= u64::MAX,
        ensures
            r.commit@ == commit@,
            r.commit_psbt == commit_psbt,
            r.reveal@ == reveal@,
            r.reveal_broadcast == reveal_broadcast,
            r.reveal_psbt == reveal_psbt,
            r.rune == rune,
            r.total_fees == total_fees,
            (match (r.parent, self.parent_info) {
                (Some(p), Some(info)) => p@ == info.id@,
                (None, None) => true,
                _ => false,
            }),
            r.inscriptions@.len() == self.inscriptions@.len(),
            forall|i: int|
                0 <= i < r.inscriptions@.len() ==> inscription_info_ok(
                    #[trigger] r.inscriptions@[i],
                    *self,
                    reveal@,
                    i,
                ),
    {
        let mut infos: Vec<InscriptionInfo> = Vec::new();
        let parent_present = match &self.parent_info {
            Some(_) => true,
            None => false,
        };
        let mut offset_acc: u64 = 0;
        let mut i: usize = 0;
        proof {
            assert(self.postages@.take(0) =~= Seq::<u64>::empty());
        }
        while i < self.inscriptions.len()
            invariant
                0 <= i <= self.inscriptions@.len(),
                self.inscriptions@.len() < 0x1_0000_0000,
                self.arity_ok(),
                sum_values(self.postages@) <= u64::MAX,
                parent_present == (self.parent_info is Some),
                infos@.len() == i,
                (self.mode is SharedOutput ==> i <= self.postages@.len()),
                (self.mode is SharedOutput ==> offset_acc == sum_values(
                    self.postages@.take(i as int),
                )),
                forall|j: int|
                    0 <= j < i ==> inscription_info_ok(#[trigger] infos@[j], *self, reveal@, j),
            decreases self.inscriptions@.len() - i,
        {
            let vout: u32 = match self.mode {
                Mode::SharedOutput | Mode::SameSat => if parent_present {
                    1
                } else {
                    0
                },
                Mode::SeparateOutputs | Mode::SatPoints => if parent_present {
                    (i as u32) + 1
                } else {
                    i as u32
                },
            };
            let offset: u64 = match self.mode {
                Mode::SharedOutput => offset_acc,
                Mode::SeparateOutputs | Mode::SameSat | Mode::SatPoints => 0,
            };
            infos.push(
                InscriptionInfo {
                    id: InscriptionId { txid: crate::bytes::clone_bytes(&reveal), index: i as u32 },
                    destination: match self.mode {
                        Mode::SameSat | Mode::SharedOutput => crate::bytes::clone_bytes(
                            &self.destinations[0],
                        ),
                        Mode::SatPoints | Mode::SeparateOutputs => crate::bytes::clone_bytes(
                            &self.destinations[i],
                        ),
                    },
                    location: SatPointM {
                        outpoint: OutPointM {
                            txid: crate::bytes::clone_bytes(&reveal),
                            vout,
                        },
                        offset,
                    },
                },
            );
            proof {
                assert(inscription_info_ok(infos@[i as int], *self, reveal@, i as int));
            }
            if matches!(self.mode, Mode::SharedOutput) {
                proof {
                    lemma_sum_values_take(self.postages@, i as int);
                    lemma_sum_prefix_bound(self.postages@, i + 1);
                    lemma_sum_values_nonneg(self.postages@.take(i as int));
                }
                offset_acc = offset_acc + self.postages[i];
            }
            i = i + 1;
        }
        let parent = match &self.parent_info {
            Some(info) => Some(crate::flow::clone_id(&info.id)),
            None => None,
        };
        Output {
            commit,
            commit_psbt,
            inscriptions: infos,
            parent,
            reveal,
            reveal_broadcast,
            reveal_psbt,
            rune,
            total_fees,
        }
    }
}

/// What entry `i` of the record must say of inscription `i`.
pub open spec fn inscription_info_ok(
    info: InscriptionInfo,
    plan: Plan,
    reveal: Seq<u8>,
    i: int,
) -> bool {
    &&& info.id@ == (InscriptionIdV { txid: reveal, index: i as u32 })
    &&& info.destination@ == (match plan.mode {
        Mode::SameSat | Mode::SharedOutput => plan.destinations@[0]@,
        Mode::SatPoints | Mode::SeparateOutputs => plan.destinations@[i]@,
    })
    &&& info.location@.outpoint == (OutPointV {
        txid: reveal,
        vout: inscription_vout(plan.mode, plan.parent_info is Some, i) as u32,
    })
    &&& info.location@.offset == inscription_offset(plan.mode, plan.postages@, i)
}

/// The base64 PSBT of a transaction with its witnesses stripped, as a dry
/// run returns it for the reveal. Succeeds on every transaction with at
/// least one input whose stripped serialization fits the consensus decoder's
/// read cap.
pub fn unsigned_psbt_base64(tx: TransactionM) -> (r: Option<String>)
    ensures
        r matches Some(s) ==> s@ == crate::taproot::psbt_b64_of(
            ser_tx(crate::plan::Plan::spec_stripped(tx), false),
        ),
        (0 < tx@.input.len() && ser_tx(crate::plan::Plan::spec_stripped(tx), false).len()
            <= 4_000_000) ==> r is Some,
{
    let stripped = Plan::remove_witnesses(tx);
    proof {
        assert(stripped@ == Plan::spec_stripped(tx));
        assert(!crate::tx::tx_has_witness(stripped@)) by {
            if crate::tx::tx_has_witness(stripped@) {
                let i = choose|i: int|
                    0 <= i < stripped@.input.len() && #[trigger] stripped@.input[i].witness.len()
                        > 0;
                assert(stripped@.input[i].witness =~= Seq::<Seq<u8>>::empty());
            }
        }
    }
    let bytes = crate::tx::serialize_tx(&stripped, false);
    crate::taproot::psbt_base64(&bytes)
}

} // verus!
