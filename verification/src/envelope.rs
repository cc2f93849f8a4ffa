//! The inscription envelope: the opcode sequence `OP_FALSE OP_IF "ord" ...
//! OP_ENDIF` that carries an inscription's fields in the reveal leaf script,
//! and the reveal script built from a batch of inscriptions.

use vstd::prelude::*;
use crate::bytes::push_all;
use crate::script::{push_encoding, push_push_slice, OP_CHECKSIG, OP_ENDIF, OP_FALSE, OP_IF};

verus! {

/// Field tags of the envelope, each pushed as a single byte.
pub const TAG_CONTENT_TYPE: u8 = 1;
pub const TAG_POINTER: u8 = 2;
pub const TAG_PARENT: u8 = 3;
pub const TAG_METADATA: u8 = 5;
pub const TAG_METAPROTOCOL: u8 = 7;
pub const TAG_CONTENT_ENCODING: u8 = 9;
pub const TAG_DELEGATE: u8 = 11;
pub const TAG_RUNE: u8 = 13;

/// The largest single push allowed in a script element; longer values are
/// chunked at this size.
pub const MAX_SCRIPT_ELEMENT_SIZE: usize = 520;

/// An inscription id: the reveal transaction id and the index of the
/// inscription within that reveal.
#[derive(Debug)]
pub struct InscriptionId {
    pub txid: Vec<u8>,
    pub index: u32,
}

pub struct InscriptionIdV {
    pub txid: Seq<u8>,
    pub index: u32,
}

impl View for InscriptionId {
    type V = InscriptionIdV;

    open spec fn view(&self) -> InscriptionIdV {
        InscriptionIdV { txid: self.txid@, index: self.index }
    }
}

/// An inscription payload. Immutable once constructed; the encoder turns it
/// into one envelope of the reveal leaf script.
#[derive(Debug)]
pub struct Inscription {
    pub body: Option<Vec<u8>>,
    pub content_type: Option<Vec<u8>>,
    pub content_encoding: Option<Vec<u8>>,
    pub delegate: Option<InscriptionId>,
    pub metadata: Option<Vec<u8>>,
    pub metaprotocol: Option<Vec<u8>>,
    pub parents: Vec<InscriptionId>,
    pub pointer: Option<u64>,
    pub rune: Option<u128>,
}

pub struct InscriptionV {
    pub body: Option<Seq<u8>>,
    pub content_type: Option<Seq<u8>>,
    pub content_encoding: Option<Seq<u8>>,
    pub delegate: Option<InscriptionIdV>,
    pub metadata: Option<Seq<u8>>,
    pub metaprotocol: Option<Seq<u8>>,
    pub parents: Seq<InscriptionIdV>,
    pub pointer: Option<u64>,
    pub rune: Option<u128>,
}

pub open spec fn opt_view(o: Option<Vec<u8>>) -> Option<Seq<u8>> {
    match o {
        Some(v) => Some(v@),
        None => None,
    }
}

pub open spec fn opt_id_view(o: Option<InscriptionId>) -> Option<InscriptionIdV> {
    match o {
        Some(v) => Some(v@),
        None => None,
    }
}

impl View for Inscription {
    type V = InscriptionV;

    open spec fn view(&self) -> InscriptionV {
        InscriptionV {
            body: opt_view(self.body),
            content_type: opt_view(self.content_type),
            content_encoding: opt_view(self.content_encoding),
            delegate: opt_id_view(self.delegate),
            metadata: opt_view(self.metadata),
            metaprotocol: opt_view(self.metaprotocol),
            parents: self.parents@.map_values(|p: InscriptionId| p@),
            pointer: self.pointer,
            rune: self.rune,
        }
    }
}

/// The little-endian bytes of `v` with trailing zero bytes trimmed; the empty
/// sequence for zero. This is how indices, pointers and rune commitments are
/// written as tag values.
pub open spec fn le_trimmed(v: nat) -> Seq<u8>
    decreases v,
{
    if v == 0 {
        Seq::empty()
    } else {
        seq![(v % 0x100) as u8] + le_trimmed(v / 0x100)
    }
}

/// The tag value of an inscription id: the 32 txid bytes followed by the
/// trimmed little-endian index.
pub open spec fn id_value(id: InscriptionIdV) -> Seq<u8> {
    id.txid + le_trimmed(id.index as nat)
}

/// One tag-value pair: a one-byte push of the tag, then a push of the value.
pub open spec fn tag_pair(tag: u8, value: Seq<u8>) -> Seq<u8> {
    push_encoding(seq![tag]) + push_encoding(value)
}

/// An optional field: absent fields contribute nothing.
pub open spec fn opt_field(tag: u8, v: Option<Seq<u8>>) -> Seq<u8> {
    match v {
        Some(value) => tag_pair(tag, value),
        None => Seq::empty(),
    }
}

/// A chunked field: the value split into pushes of at most 520 bytes, each
/// chunk preceded by its own tag push. An empty value contributes nothing.
pub open spec fn chunked_pairs(tag: u8, data: Seq<u8>) -> Seq<u8>
    decreases data.len(),
{
    if data.len() == 0 {
        Seq::empty()
    } else if data.len() <= 520 {
        tag_pair(tag, data)
    } else {
        tag_pair(tag, data.take(520)) + chunked_pairs(tag, data.skip(520))
    }
}

pub open spec fn opt_chunked_field(tag: u8, v: Option<Seq<u8>>) -> Seq<u8> {
    match v {
        Some(value) => chunked_pairs(tag, value),
        None => Seq::empty(),
    }
}

/// The body chunks: plain pushes of at most 520 bytes, in byte order.
pub open spec fn body_chunks(data: Seq<u8>) -> Seq<u8>
    decreases data.len(),
{
    if data.len() == 0 {
        Seq::empty()
    } else if data.len() <= 520 {
        push_encoding(data)
    } else {
        push_encoding(data.take(520)) + body_chunks(data.skip(520))
    }
}

/// The body part of an envelope: an empty push marking the end of the fields,
/// then the body chunks. Present only when the inscription has a body.
pub open spec fn body_field(v: Option<Seq<u8>>) -> Seq<u8> {
    match v {
        Some(data) => seq![0u8] + body_chunks(data),
        None => Seq::empty(),
    }
}

/// The parent fields, one tag-value pair per parent, in order.
pub open spec fn parent_fields(parents: Seq<InscriptionIdV>) -> Seq<u8>
    decreases parents.len(),
{
    if parents.len() == 0 {
        Seq::empty()
    } else {
        tag_pair(TAG_PARENT, id_value(parents[0])) + parent_fields(parents.drop_first())
    }
}

pub open spec fn opt_value(v: Option<u64>) -> Option<Seq<u8>> {
    match v {
        Some(p) => Some(le_trimmed(p as nat)),
        None => None,
    }
}

pub open spec fn opt_rune_value(v: Option<u128>) -> Option<Seq<u8>> {
    match v {
        Some(r) => Some(le_trimmed(r as nat)),
        None => None,
    }
}

pub open spec fn opt_id_value(v: Option<InscriptionIdV>) -> Option<Seq<u8>> {
    match v {
        Some(id) => Some(id_value(id)),
        None => None,
    }
}

/// The complete envelope of one inscription.
pub open spec fn envelope(i: InscriptionV) -> Seq<u8> {
    seq![OP_FALSE, OP_IF] + push_encoding(seq![0x6fu8, 0x72u8, 0x64u8]) + opt_field(
        TAG_CONTENT_TYPE,
        i.content_type,
    ) + opt_field(TAG_CONTENT_ENCODING, i.content_encoding) + opt_field(
        TAG_METAPROTOCOL,
        i.metaprotocol,
    ) + parent_fields(i.parents) + opt_field(TAG_DELEGATE, opt_id_value(i.delegate)) + opt_field(
        TAG_POINTER,
        opt_value(i.pointer),
    ) + opt_chunked_field(TAG_METADATA, i.metadata) + opt_field(
        TAG_RUNE,
        opt_rune_value(i.rune),
    ) + body_field(i.body) + seq![OP_ENDIF]
}

/// The envelopes of a batch, in batch order.
pub open spec fn envelopes(s: Seq<InscriptionV>) -> Seq<u8>
    decreases s.len(),
{
    if s.len() == 0 {
        Seq::empty()
    } else {
        envelope(s[0]) + envelopes(s.drop_first())
    }
}

/// The reveal leaf script of a batch: a push of the x-only public key,
/// `OP_CHECKSIG`, then each inscription's envelope in order.
pub open spec fn reveal_script_bytes(pubkey: Seq<u8>, inscriptions: Seq<InscriptionV>) -> Seq<u8> {
    push_encoding(pubkey) + seq![OP_CHECKSIG] + envelopes(inscriptions)
}

/// Fields whose values are pushed whole must fit in a single push.
pub open spec fn wf_inscription(i: InscriptionV) -> bool {
    &&& (i.content_type matches Some(v) ==> v.len() < 0x1_0000_0000)
    &&& (i.content_encoding matches Some(v) ==> v.len() < 0x1_0000_0000)
    &&& (i.metaprotocol matches Some(v) ==> v.len() < 0x1_0000_0000)
    &&& (i.delegate matches Some(d) ==> d.txid.len() == 32)
    &&& (forall|j: int| 0 <= j < i.parents.len() ==> (#[trigger] i.parents[j]).txid.len() == 32)
}

pub open spec fn wf_inscriptions(s: Seq<InscriptionV>) -> bool {
    forall|j: int| 0 <= j < s.len() ==> wf_inscription(#[trigger] s[j])
}

/// Appends the little-endian trimmed encoding of `v`.
pub fn push_le_trimmed(out: &mut Vec<u8>, v: u128)
    ensures
        final(out)@ == old(out)@ + le_trimmed(v as nat),
{
    let mut x: u128 = v;
    while x > 0
        invariant
            out@ + le_trimmed(x as nat) == old(out)@ + le_trimmed(v as nat),
        decreases x,
    {
        out.push((x % 0x100) as u8);
        assert(out@ + le_trimmed((x / 0x100) as nat) =~= old(out)@ + le_trimmed(v as nat));
        x = x / 0x100;
    }
    assert(out@ =~= out@ + le_trimmed(0));
}

/// The tag value of an inscription id.
pub fn make_id_value(id: &InscriptionId) -> (r: Vec<u8>)
    ensures
        r@ == id_value(id@),
{
    let mut out: Vec<u8> = Vec::new();
    push_all(&mut out, &id.txid);
    push_le_trimmed(&mut out, id.index as u128);
    assert(out@ =~= id_value(id@));
    out
}

/// Appends one tag-value pair.
fn push_tag_pair(out: &mut Vec<u8>, tag: u8, value: &Vec<u8>)
    requires
        value@.len() < 0x1_0000_0000,
    ensures
        final(out)@ == old(out)@ + tag_pair(tag, value@),
{
    let mut t: Vec<u8> = Vec::new();
    t.push(tag);
    assert(t@ =~= seq![tag]);
    push_push_slice(out, &t);
    push_push_slice(out, value);
    assert(out@ =~= old(out)@ + tag_pair(tag, value@));
}

/// Appends the chunked pairs of one chunked field.
fn push_chunked_pairs(out: &mut Vec<u8>, tag: u8, value: &Vec<u8>)
    ensures
        final(out)@ == old(out)@ + chunked_pairs(tag, value@),
{
    let mut pos: usize = 0;
    assert(value@.skip(0) =~= value@);
    while pos < value.len()
        invariant
            0 <= pos <= value@.len(),
            out@ + chunked_pairs(tag, value@.skip(pos as int)) == old(out)@ + chunked_pairs(
                tag,
                value@,
            ),
        decreases value@.len() - pos,
    {
        let remaining = value.len() - pos;
        let end = if remaining <= MAX_SCRIPT_ELEMENT_SIZE {
            value.len()
        } else {
            pos + MAX_SCRIPT_ELEMENT_SIZE
        };
        let mut chunk: Vec<u8> = Vec::new();
        crate::bytes::push_range(&mut chunk, value, pos, end);
        push_tag_pair(out, tag, &chunk);
        proof {
            let rest = value@.skip(pos as int);
            if rest.len() <= 520 {
                assert(chunk@ =~= rest);
                assert(chunked_pairs(tag, rest) == tag_pair(tag, rest));
            } else {
                assert(chunk@ =~= rest.take(520));
                assert(rest.skip(520) =~= value@.skip(end as int));
            }
            assert(out@ + chunked_pairs(tag, value@.skip(end as int)) =~= old(out)@
                + chunked_pairs(tag, value@));
        }
        pos = end;
    }
    proof {
        assert(value@.skip(value@.len() as int) =~= Seq::<u8>::empty());
        assert(out@ =~= out@ + chunked_pairs(tag, Seq::<u8>::empty()));
    }
}

/// Appends the body chunks.
fn push_body_chunks(out: &mut Vec<u8>, value: &Vec<u8>)
    ensures
        final(out)@ == old(out)@ + body_chunks(value@),
{
    let ghost pre = out@;
    let mut pos: usize = 0;
    assert(value@.skip(0) =~= value@);
    while pos < value.len()
        invariant
            0 <= pos <= value@.len(),
            out@ + body_chunks(value@.skip(pos as int)) == pre + body_chunks(value@),
        decreases value@.len() - pos,
    {
        let remaining = value.len() - pos;
        let end = if remaining <= MAX_SCRIPT_ELEMENT_SIZE {
            value.len()
        } else {
            pos + MAX_SCRIPT_ELEMENT_SIZE
        };
        let mut chunk: Vec<u8> = Vec::new();
        crate::bytes::push_range(&mut chunk, value, pos, end);
        push_push_slice(out, &chunk);
        proof {
            let rest = value@.skip(pos as int);
            if rest.len() <= 520 {
                assert(chunk@ =~= rest);
            } else {
                assert(chunk@ =~= rest.take(520));
                assert(rest.skip(520) =~= value@.skip(end as int));
            }
            assert(out@ + body_chunks(value@.skip(end as int)) =~= pre + body_chunks(value@));
        }
        pos = end;
    }
    proof {
        assert(value@.skip(value@.len() as int) =~= Seq::<u8>::empty());
        assert(out@ =~= out@ + body_chunks(Seq::<u8>::empty()));
    }
}

/// Appends one optional whole-value field.
fn push_opt_bytes_field(out: &mut Vec<u8>, tag: u8, v: &Option<Vec<u8>>)
    requires
        (opt_view(*v) matches Some(b) ==> b.len() < 0x1_0000_0000),
    ensures
        final(out)@ == old(out)@ + opt_field(tag, opt_view(*v)),
{
    if let Some(value) = v {
        push_tag_pair(out, tag, value);
    }
    assert(out@ =~= old(out)@ + opt_field(tag, opt_view(*v)));
}

/// Appends one optional inscription-id field.
fn push_opt_id_field(out: &mut Vec<u8>, tag: u8, v: &Option<InscriptionId>)
    requires
        (opt_id_view(*v) matches Some(d) ==> d.txid.len() == 32),
    ensures
        final(out)@ == old(out)@ + opt_field(tag, opt_id_value(opt_id_view(*v))),
{
    if let Some(id) = v {
        let value = make_id_value(id);
        proof {
            lemma_le_trimmed_len(id@.index as nat);
            assert(value@.len() <= 48);
        }
        push_tag_pair(out, tag, &value);
    }
    assert(out@ =~= old(out)@ + opt_field(tag, opt_id_value(opt_id_view(*v))));
}

/// Appends the optional pointer field.
fn push_opt_pointer_field(out: &mut Vec<u8>, v: &Option<u64>)
    ensures
        final(out)@ == old(out)@ + opt_field(TAG_POINTER, opt_value(*v)),
{
    if let Some(pointer) = v {
        let mut value: Vec<u8> = Vec::new();
        push_le_trimmed(&mut value, *pointer as u128);
        proof {
            lemma_le_trimmed_len(*pointer as nat);
        }
        push_tag_pair(out, TAG_POINTER, &value);
    }
    assert(out@ =~= old(out)@ + opt_field(TAG_POINTER, opt_value(*v)));
}

/// Appends the optional rune field.
fn push_opt_rune_field(out: &mut Vec<u8>, v: &Option<u128>)
    ensures
        final(out)@ == old(out)@ + opt_field(TAG_RUNE, opt_rune_value(*v)),
{
    if let Some(rune) = v {
        let mut value: Vec<u8> = Vec::new();
        push_le_trimmed(&mut value, *rune);
        proof {
            lemma_le_trimmed_len(*rune as nat);
        }
        push_tag_pair(out, TAG_RUNE, &value);
    }
    assert(out@ =~= old(out)@ + opt_field(TAG_RUNE, opt_rune_value(*v)));
}

/// Appends the optional chunked metadata field.
fn push_opt_metadata(out: &mut Vec<u8>, v: &Option<Vec<u8>>)
    ensures
        final(out)@ == old(out)@ + opt_chunked_field(TAG_METADATA, opt_view(*v)),
{
    if let Some(metadata) = v {
        push_chunked_pairs(out, TAG_METADATA, metadata);
    }
    assert(out@ =~= old(out)@ + opt_chunked_field(TAG_METADATA, opt_view(*v)));
}

/// Appends the optional body part.
fn push_opt_body(out: &mut Vec<u8>, v: &Option<Vec<u8>>)
    ensures
        final(out)@ == old(out)@ + body_field(opt_view(*v)),
{
    if let Some(body) = v {
        out.push(0u8);
        let ghost pre = out@;
        assert(pre =~= old(out)@ + seq![0u8]);
        push_body_chunks(out, body);
    }
    assert(out@ =~= old(out)@ + body_field(opt_view(*v)));
}

/// Appends all parent fields in order.
fn push_parent_fields(out: &mut Vec<u8>, parents: &Vec<InscriptionId>)
    requires
        forall|j: int| 0 <= j < parents@.len() ==> (#[trigger] parents@[j]@).txid.len() == 32,
    ensures
        final(out)@ == old(out)@ + parent_fields(
            parents@.map_values(|p: InscriptionId| p@),
        ),
{
    let ghost views = parents@.map_values(|p: InscriptionId| p@);
    let mut p: usize = 0;
    assert(views.skip(0) =~= views);
    while p < parents.len()
        invariant
            0 <= p <= parents@.len(),
            views.len() == parents@.len(),
            views == parents@.map_values(|p: InscriptionId| p@),
            forall|j: int| 0 <= j < views.len() ==> (#[trigger] views[j]).txid.len() == 32,
            out@ + parent_fields(views.skip(p as int)) == old(out)@ + parent_fields(views),
        decreases parents@.len() - p,
    {
        assert(views[p as int] == parents@[p as int]@);
        let value = make_id_value(&parents[p]);
        proof {
            lemma_le_trimmed_len(views[p as int].index as nat);
            assert(value@.len() <= 48);
        }
        push_tag_pair(out, TAG_PARENT, &value);
        proof {
            let rest = views.skip(p as int);
            assert(rest[0] == views[p as int]);
            assert(rest.drop_first() =~= views.skip(p + 1));
            assert(out@ + parent_fields(views.skip(p + 1)) =~= old(out)@ + parent_fields(views));
        }
        p = p + 1;
    }
    proof {
        assert(views.skip(views.len() as int) =~= Seq::<InscriptionIdV>::empty());
        assert(out@ =~= out@ + parent_fields(Seq::<InscriptionIdV>::empty()));
    }
}

/// Reassociating the envelope pieces appended one after another yields the
/// envelope as a whole.
#[verifier::rlimit(100)]
proof fn lemma_envelope_assoc(pre: Seq<u8>, i: InscriptionV)
    ensures
        pre + seq![OP_FALSE, OP_IF] + push_encoding(seq![0x6fu8, 0x72u8, 0x64u8]) + opt_field(
            TAG_CONTENT_TYPE,
            i.content_type,
        ) + opt_field(TAG_CONTENT_ENCODING, i.content_encoding) + opt_field(
            TAG_METAPROTOCOL,
            i.metaprotocol,
        ) + parent_fields(i.parents) + opt_field(TAG_DELEGATE, opt_id_value(i.delegate))
            + opt_field(TAG_POINTER, opt_value(i.pointer)) + opt_chunked_field(
            TAG_METADATA,
            i.metadata,
        ) + opt_field(TAG_RUNE, opt_rune_value(i.rune)) + body_field(i.body) + seq![OP_ENDIF]
            == pre + envelope(i),
{
    assert(pre + seq![OP_FALSE, OP_IF] + push_encoding(seq![0x6fu8, 0x72u8, 0x64u8]) + opt_field(
        TAG_CONTENT_TYPE,
        i.content_type,
    ) + opt_field(TAG_CONTENT_ENCODING, i.content_encoding) + opt_field(
        TAG_METAPROTOCOL,
        i.metaprotocol,
    ) + parent_fields(i.parents) + opt_field(TAG_DELEGATE, opt_id_value(i.delegate)) + opt_field(
        TAG_POINTER,
        opt_value(i.pointer),
    ) + opt_chunked_field(TAG_METADATA, i.metadata) + opt_field(TAG_RUNE, opt_rune_value(i.rune))
        + body_field(i.body) + seq![OP_ENDIF] =~= pre + envelope(i));
}

/// Appends the envelope of one inscription.
#[verifier::rlimit(100)]
pub fn append_envelope(out: &mut Vec<u8>, insc: &Inscription)
    requires
        wf_inscription(insc@),
    ensures
        final(out)@ == old(out)@ + envelope(insc@),
{
    out.push(OP_FALSE);
    out.push(OP_IF);
    let mut protocol: Vec<u8> = Vec::new();
    protocol.push(0x6f);
    protocol.push(0x72);
    protocol.push(0x64);
    assert(protocol@ =~= seq![0x6fu8, 0x72u8, 0x64u8]);
    push_push_slice(out, &protocol);
    let ghost e0 = old(out)@ + seq![OP_FALSE, OP_IF] + push_encoding(seq![0x6fu8, 0x72u8, 0x64u8]);
    assert(out@ =~= e0);
    push_opt_bytes_field(out, TAG_CONTENT_TYPE, &insc.content_type);
    let ghost e1 = e0 + opt_field(TAG_CONTENT_TYPE, insc@.content_type);
    assert(out@ == e1);
    push_opt_bytes_field(out, TAG_CONTENT_ENCODING, &insc.content_encoding);
    let ghost e2 = e1 + opt_field(TAG_CONTENT_ENCODING, insc@.content_encoding);
    assert(out@ == e2);
    push_opt_bytes_field(out, TAG_METAPROTOCOL, &insc.metaprotocol);
    let ghost e3 = e2 + opt_field(TAG_METAPROTOCOL, insc@.metaprotocol);
    assert(out@ == e3);
    proof {
        assert forall|j: int|
            0 <= j < insc.parents@.len() implies (#[trigger] insc.parents@[j]@).txid.len()
            == 32 by {
            assert(insc@.parents[j] == insc.parents@[j]@);
        }
    }
    push_parent_fields(out, &insc.parents);
    let ghost e4 = e3 + parent_fields(insc@.parents);
    assert(out@ == e4);
    push_opt_id_field(out, TAG_DELEGATE, &insc.delegate);
    let ghost e5 = e4 + opt_field(TAG_DELEGATE, opt_id_value(insc@.delegate));
    assert(out@ == e5);
    push_opt_pointer_field(out, &insc.pointer);
    let ghost e6 = e5 + opt_field(TAG_POINTER, opt_value(insc@.pointer));
    assert(out@ == e6);
    push_opt_metadata(out, &insc.metadata);
    let ghost e7 = e6 + opt_chunked_field(TAG_METADATA, insc@.metadata);
    assert(out@ == e7);
    push_opt_rune_field(out, &insc.rune);
    let ghost e8 = e7 + opt_field(TAG_RUNE, opt_rune_value(insc@.rune));
    assert(out@ == e8);
    push_opt_body(out, &insc.body);
    let ghost e9 = e8 + body_field(insc@.body);
    assert(out@ == e9);
    out.push(OP_ENDIF);
    assert(out@ =~= e9 + seq![OP_ENDIF]);
    proof {
        lemma_envelope_assoc(old(out)@, insc@);
    }
}

pub open spec fn pow256(k: nat) -> nat
    decreases k,
{
    if k == 0 {
        1
    } else {
        256 * pow256((k - 1) as nat)
    }
}

pub proof fn lemma_le_trimmed_len_bound(v: nat, k: nat)
    requires
        v < pow256(k),
    ensures
        le_trimmed(v).len() <= k,
    decreases v,
{
    if v > 0 {
        assert(k > 0);
        let m = pow256((k - 1) as nat);
        assert(256 * (v / 256) <= v);
        assert(v / 256 < m);
        lemma_le_trimmed_len_bound(v / 0x100, (k - 1) as nat);
    }
}

/// The trimmed little-endian encoding never exceeds sixteen bytes for values
/// that fit in 128 bits.
pub proof fn lemma_le_trimmed_len(v: nat)
    requires
        v < 0x1_0000_0000_0000_0000_0000_0000_0000_0000,
    ensures
        le_trimmed(v).len() <= 16,
{
    reveal_with_fuel(pow256, 17);
    assert(pow256(16) == 0x1_0000_0000_0000_0000_0000_0000_0000_0000);
    lemma_le_trimmed_len_bound(v, 16);
}

/// Builds the reveal leaf script for a batch: key push, `OP_CHECKSIG`, then
/// each inscription's envelope in batch order.
pub fn append_batch_reveal_script(pubkey: &Vec<u8>, inscriptions: &Vec<Inscription>) -> (r: Vec<
    u8,
>)
    requires
        pubkey@.len() < 0x1_0000_0000,
        wf_inscriptions(inscriptions@.map_values(|i: Inscription| i@)),
    ensures
        r@ == reveal_script_bytes(pubkey@, inscriptions@.map_values(|i: Inscription| i@)),
{
    let ghost views = inscriptions@.map_values(|i: Inscription| i@);
    let mut out: Vec<u8> = Vec::new();
    push_push_slice(&mut out, pubkey);
    out.push(OP_CHECKSIG);
    let ghost pre = out@;
    assert(pre =~= push_encoding(pubkey@) + seq![OP_CHECKSIG]);
    let mut i: usize = 0;
    assert(views.skip(0) =~= views);
    while i < inscriptions.len()
        invariant
            0 <= i <= inscriptions@.len(),
            views.len() == inscriptions@.len(),
            views == inscriptions@.map_values(|i: Inscription| i@),
            wf_inscriptions(views),
            out@ + envelopes(views.skip(i as int)) == pre + envelopes(views),
        decreases inscriptions@.len() - i,
    {
        assert(views[i as int] == inscriptions@[i as int]@);
        assert(wf_inscription(views[i as int]));
        append_envelope(&mut out, &inscriptions[i]);
        proof {
            let rest = views.skip(i as int);
            assert(rest[0] == views[i as int]);
            assert(rest.drop_first() =~= views.skip(i + 1));
            assert(out@ + envelopes(views.skip(i + 1)) =~= pre + envelopes(views));
        }
        i = i + 1;
    }
    proof {
        assert(views.skip(views.len() as int) =~= Seq::<InscriptionV>::empty());
        assert(out@ =~= out@ + envelopes(Seq::<InscriptionV>::empty()));
        assert(out@ =~= reveal_script_bytes(pubkey@, views));
    }
    out
}

} // verus!
