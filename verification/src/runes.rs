//! Rune etching support: the planned runestone's fields, built by verified
//! code, and its script encoding through the `ordinals` crate.

use vstd::prelude::*;

verus! {

/// A rune name with its spacer bits.
#[derive(Clone, Copy, PartialEq, Eq, Structural, Debug)]
pub struct SpacedRuneM {
    pub rune: u128,
    pub spacers: u32,
}

/// Mint terms of an etching, as the plan states them.
#[derive(Clone, Copy, PartialEq, Eq, Structural, Debug)]
pub struct TermsM {
    pub amount: u128,
    pub cap: u128,
    pub height_start: Option<u64>,
    pub height_end: Option<u64>,
    pub offset_start: Option<u64>,
    pub offset_end: Option<u64>,
}

/// A rune etching, as the plan states it. The premine and amount are already
/// scaled to integer units of the rune's divisibility.
#[derive(Clone, Copy, PartialEq, Eq, Structural, Debug)]
pub struct EtchingM {
    pub divisibility: u8,
    pub premine: u128,
    pub rune: SpacedRuneM,
    pub symbol: char,
    pub terms: Option<TermsM>,
    pub turbo: bool,
}

/// The optional fields of a runestone's etching, exactly as the `ordinals`
/// crate's `Etching` carries them.
#[derive(Clone, Copy, PartialEq, Eq, Structural, Debug)]
pub struct EtchingFieldsM {
    pub divisibility: Option<u8>,
    pub premine: Option<u128>,
    pub rune: Option<u128>,
    pub spacers: Option<u32>,
    pub symbol: Option<char>,
    pub terms: Option<TermsFieldsM>,
    pub turbo: bool,
}

/// The optional fields of a runestone's mint terms, exactly as the `ordinals`
/// crate's `Terms` carries them.
#[derive(Clone, Copy, PartialEq, Eq, Structural, Debug)]
pub struct TermsFieldsM {
    pub amount: Option<u128>,
    pub cap: Option<u128>,
    pub height_start: Option<u64>,
    pub height_end: Option<u64>,
    pub offset_start: Option<u64>,
    pub offset_end: Option<u64>,
}

/// The planned runestone: an optional etching and an optional premine output
/// pointer. This engine never emits edicts or mints.
#[derive(Clone, Copy, PartialEq, Eq, Structural, Debug)]
pub struct RunestoneM {
    pub etching: Option<EtchingFieldsM>,
    pub pointer: Option<u32>,
}

/// The mint-terms fields flattened to plain values.
pub open spec fn terms_key(t: TermsFieldsM) -> (
    Option<u128>,
    Option<u128>,
    (Option<u64>, Option<u64>),
    (Option<u64>, Option<u64>),
) {
    (t.amount, t.cap, (t.height_start, t.height_end), (t.offset_start, t.offset_end))
}

/// The etching fields flattened to plain values.
pub open spec fn etching_key(e: EtchingFieldsM) -> (
    Option<u8>,
    Option<u128>,
    Option<u128>,
    Option<u32>,
    Option<char>,
    Option<(Option<u128>, Option<u128>, (Option<u64>, Option<u64>), (Option<u64>, Option<u64>))>,
    bool,
) {
    (
        e.divisibility,
        e.premine,
        e.rune,
        e.spacers,
        e.symbol,
        match e.terms {
            Some(t) => Some(terms_key(t)),
            None => None,
        },
        e.turbo,
    )
}

pub open spec fn runestone_key(r: RunestoneM) -> (
    Option<
        (
            Option<u8>,
            Option<u128>,
            Option<u128>,
            Option<u32>,
            Option<char>,
            Option<
                (Option<u128>, Option<u128>, (Option<u64>, Option<u64>), (Option<u64>, Option<u64>)),
            >,
            bool,
        ),
    >,
    Option<u32>,
) {
    (
        match r.etching {
            Some(e) => Some(etching_key(e)),
            None => None,
        },
        r.pointer,
    )
}

/// The output script that `ordinals::Runestone::encipher` produces for a
/// runestone with these etching fields and pointer, no edicts and no mint:
/// `OP_RETURN OP_PUSHNUM_13` followed by the pushed payload.
pub uninterp spec fn runestone_bytes(
    etching: Option<
        (
            Option<u8>,
            Option<u128>,
            Option<u128>,
            Option<u32>,
            Option<char>,
            Option<
                (Option<u128>, Option<u128>, (Option<u64>, Option<u64>), (Option<u64>, Option<u64>)),
            >,
            bool,
        ),
    >,
    pointer: Option<u32>,
) -> Seq<u8>;

/// Relies on `ordinals::Runestone::encipher`: the OP_RETURN script of the
/// runestone, a deterministic function of its fields.
#[verifier::external_body]
pub(crate) fn encipher_runestone(r: &RunestoneM) -> (s: Vec<u8>)
    ensures
        s@ == runestone_bytes(runestone_key(*r).0, runestone_key(*r).1),
{
    let etching = r.etching.as_ref().map(|e| ordinals::Etching {
        divisibility: e.divisibility, premine: e.premine, rune: e.rune.map(ordinals::Rune),
        spacers: e.spacers, symbol: e.symbol, turbo: e.turbo,
        terms: e.terms.as_ref().map(|t| ordinals::Terms {
            amount: t.amount, cap: t.cap, height: (t.height_start, t.height_end),
            offset: (t.offset_start, t.offset_end) }) });
    ordinals::Runestone { edicts: Vec::new(), etching, mint: None, pointer: r.pointer }
        .encipher().into_bytes()
}

/// The runestone fields the reveal will carry for an etching: zero counts
/// become absent fields, the rune name and symbol are always present, and
/// the pointer names the premine output when there is a premine.
pub open spec fn planned_runestone(etching: EtchingM, premine_vout: Option<u32>) -> RunestoneM {
    RunestoneM {
        etching: Some(
            EtchingFieldsM {
                divisibility: if etching.divisibility > 0 {
                    Some(etching.divisibility)
                } else {
                    None
                },
                premine: if etching.premine > 0 {
                    Some(etching.premine)
                } else {
                    None
                },
                rune: Some(etching.rune.rune),
                spacers: if etching.rune.spacers > 0 {
                    Some(etching.rune.spacers)
                } else {
                    None
                },
                symbol: Some(etching.symbol),
                terms: match etching.terms {
                    Some(t) => Some(
                        TermsFieldsM {
                            amount: Some(t.amount),
                            cap: if t.cap > 0 {
                                Some(t.cap)
                            } else {
                                None
                            },
                            height_start: t.height_start,
                            height_end: t.height_end,
                            offset_start: t.offset_start,
                            offset_end: t.offset_end,
                        },
                    ),
                    None => None,
                },
                turbo: etching.turbo,
            },
        ),
        pointer: if etching.premine > 0 {
            premine_vout
        } else {
            None
        },
    }
}

/// Builds the runestone the reveal will carry for an etching.
pub fn plan_runestone(etching: &EtchingM, premine_vout: Option<u32>) -> (r: RunestoneM)
    ensures
        r == planned_runestone(*etching, premine_vout),
{
    let terms = match &etching.terms {
        Some(t) => Some(
            TermsFieldsM {
                amount: Some(t.amount),
                cap: if t.cap > 0 {
                    Some(t.cap)
                } else {
                    None
                },
                height_start: t.height_start,
                height_end: t.height_end,
                offset_start: t.offset_start,
                offset_end: t.offset_end,
            },
        ),
        None => None,
    };
    RunestoneM {
        etching: Some(
            EtchingFieldsM {
                divisibility: if etching.divisibility > 0 {
                    Some(etching.divisibility)
                } else {
                    None
                },
                premine: if etching.premine > 0 {
                    Some(etching.premine)
                } else {
                    None
                },
                rune: Some(etching.rune.rune),
                spacers: if etching.rune.spacers > 0 {
                    Some(etching.rune.spacers)
                } else {
                    None
                },
                symbol: Some(etching.symbol),
                terms,
                turbo: etching.turbo,
            },
        ),
        pointer: if etching.premine > 0 {
            premine_vout
        } else {
            None
        },
    }
}

} // verus!
