//! A reference decoder for the reveal leaf script, at the specification
//! level, and the proof that the envelope encoder round-trips: parsing an
//! encoded batch yields exactly the original fields.

use vstd::prelude::*;
use crate::bytes::lemma_seq_add_assoc;
use crate::envelope::{
    body_chunks, body_field, chunked_pairs, envelope, envelopes, id_value, le_trimmed, opt_chunked_field,
    opt_field, opt_id_value, opt_rune_value, opt_value, parent_fields, reveal_script_bytes, tag_pair,
    wf_inscription, InscriptionIdV, InscriptionV, TAG_CONTENT_ENCODING, TAG_CONTENT_TYPE,
    TAG_DELEGATE, TAG_METADATA, TAG_METAPROTOCOL, TAG_PARENT, TAG_POINTER, TAG_RUNE,
};
use crate::script::{push_encoding, OP_CHECKSIG, OP_ENDIF, OP_FALSE, OP_IF};

verus! {

/// The raw field values one envelope parses to: tag values as they stand in
/// the script, in envelope order for the parents.
pub struct ParsedEnvelope {
    pub body: Option<Seq<u8>>,
    pub content_type: Option<Seq<u8>>,
    pub content_encoding: Option<Seq<u8>>,
    pub delegate: Option<Seq<u8>>,
    pub metadata: Option<Seq<u8>>,
    pub metaprotocol: Option<Seq<u8>>,
    pub parents: Seq<Seq<u8>>,
    pub pointer: Option<Seq<u8>>,
    pub rune: Option<Seq<u8>>,
}

pub open spec fn empty_envelope() -> ParsedEnvelope {
    ParsedEnvelope {
        body: None,
        content_type: None,
        content_encoding: None,
        delegate: None,
        metadata: None,
        metaprotocol: None,
        parents: Seq::empty(),
        pointer: None,
        rune: None,
    }
}

/// Parses one minimal data push: the data and what follows it. Only the
/// canonical (minimal) encodings are accepted.
pub open spec fn parse_push(s: Seq<u8>) -> Option<(Seq<u8>, Seq<u8>)> {
    if s.len() == 0 {
        None
    } else {
        let op = s[0] as int;
        if op <= 75 {
            if s.len() >= 1 + op {
                Some((s.subrange(1, 1 + op), s.skip(1 + op)))
            } else {
                None
            }
        } else if op == 0x4c {
            if s.len() >= 2 && s[1] > 75 && s.len() >= 2 + s[1] {
                Some((s.subrange(2, 2 + s[1]), s.skip(2 + s[1])))
            } else {
                None
            }
        } else if op == 0x4d {
            let n = s.len() >= 3;
            let len = if n {
                s[1] + 0x100 * (s[2] as int)
            } else {
                0
            };
            if n && len > 0xff && s.len() >= 3 + len {
                Some((s.subrange(3, 3 + len), s.skip(3 + len)))
            } else {
                None
            }
        } else if op == 0x4e {
            let n = s.len() >= 5;
            let len = if n {
                s[1] + 0x100 * (s[2] as int) + 0x1_0000 * (s[3] as int) + 0x100_0000 * (
                s[4] as int)
            } else {
                0
            };
            if n && len > 0xffff && s.len() >= 5 + len {
                Some((s.subrange(5, 5 + len), s.skip(5 + len)))
            } else {
                None
            }
        } else {
            None
        }
    }
}

/// A minimal push parses back to its data, whatever follows.
pub proof fn lemma_parse_push(d: Seq<u8>, rest: Seq<u8>)
    requires
        d.len() < 0x1_0000_0000,
    ensures
        parse_push(push_encoding(d) + rest) == Some((d, rest)),
{
    let s = push_encoding(d) + rest;
    let n = d.len() as int;
    if n <= 75 {
        assert(s[0] == n as u8);
        assert(s.subrange(1, 1 + n) =~= d);
        assert(s.skip(1 + n) =~= rest);
    } else if n <= 0xff {
        assert(s[0] == 0x4cu8 && s[1] == n as u8);
        assert(s.subrange(2, 2 + n) =~= d);
        assert(s.skip(2 + n) =~= rest);
    } else if n <= 0xffff {
        assert(s[0] == 0x4du8);
        assert(s[1] == (n % 0x100) as u8 && s[2] == ((n / 0x100) % 0x100) as u8);
        assert((n / 0x100) % 0x100 == n / 0x100);
        assert(s[1] + 0x100 * (s[2] as int) == n);
        assert(s.subrange(3, 3 + n) =~= d);
        assert(s.skip(3 + n) =~= rest);
    } else {
        assert(s[0] == 0x4eu8);
        assert(s[1] == (n % 0x100) as u8);
        assert(s[2] == ((n / 0x100) % 0x100) as u8);
        assert(s[3] == ((n / 0x1_0000) % 0x100) as u8);
        assert(s[4] == ((n / 0x100_0000) % 0x100) as u8);
        assert((n / 0x100_0000) % 0x100 == n / 0x100_0000);
        assert(s[1] + 0x100 * (s[2] as int) + 0x1_0000 * (s[3] as int) + 0x100_0000 * (
        s[4] as int) == n) by {
            assert(n == 0x100 * (n / 0x100) + n % 0x100);
            assert(n / 0x100 == 0x100 * (n / 0x1_0000) + (n / 0x100) % 0x100);
            assert(n / 0x1_0000 == 0x100 * (n / 0x100_0000) + (n / 0x1_0000) % 0x100);
        }
        assert(s.subrange(5, 5 + n) =~= d);
        assert(s.skip(5 + n) =~= rest);
    }
}

/// Whether a one-byte tag is one the envelope knows.
pub open spec fn known_tag(t: u8) -> bool {
    t == TAG_CONTENT_TYPE || t == TAG_POINTER || t == TAG_PARENT || t == TAG_METADATA || t
        == TAG_METAPROTOCOL || t == TAG_CONTENT_ENCODING || t == TAG_DELEGATE || t == TAG_RUNE
}

/// Records a parsed tag-value pair: parents collect in order, metadata
/// chunks concatenate, every other tag keeps its value.
pub open spec fn apply_tag(acc: ParsedEnvelope, t: u8, v: Seq<u8>) -> ParsedEnvelope {
    if t == TAG_CONTENT_TYPE {
        ParsedEnvelope { content_type: Some(v), ..acc }
    } else if t == TAG_POINTER {
        ParsedEnvelope { pointer: Some(v), ..acc }
    } else if t == TAG_PARENT {
        ParsedEnvelope { parents: acc.parents.push(v), ..acc }
    } else if t == TAG_METADATA {
        ParsedEnvelope {
            metadata: match acc.metadata {
                Some(m) => Some(m + v),
                None => Some(v),
            },
            ..acc
        }
    } else if t == TAG_METAPROTOCOL {
        ParsedEnvelope { metaprotocol: Some(v), ..acc }
    } else if t == TAG_CONTENT_ENCODING {
        ParsedEnvelope { content_encoding: Some(v), ..acc }
    } else if t == TAG_DELEGATE {
        ParsedEnvelope { delegate: Some(v), ..acc }
    } else {
        ParsedEnvelope { rune: Some(v), ..acc }
    }
}

/// Concatenates the body chunks up to `OP_ENDIF`, consuming it.
pub open spec fn parse_body(s: Seq<u8>) -> Option<(Seq<u8>, Seq<u8>)>
    decreases s.len(),
{
    if s.len() == 0 {
        None
    } else if s[0] == OP_ENDIF {
        Some((Seq::empty(), s.skip(1)))
    } else {
        match parse_push(s) {
            Some(p) => if p.1.len() < s.len() {
                match parse_body(p.1) {
                    Some(q) => Some((p.0 + q.0, q.1)),
                    None => None,
                }
            } else {
                None
            },
            None => None,
        }
    }
}

/// Parses the tag-value pairs of one envelope up to the body marker or
/// `OP_ENDIF`, consuming the terminator and any body.
pub open spec fn parse_fields(s: Seq<u8>, acc: ParsedEnvelope) -> Option<(ParsedEnvelope, Seq<u8>)>
    decreases s.len(),
{
    if s.len() == 0 {
        None
    } else if s[0] == OP_ENDIF {
        Some((acc, s.skip(1)))
    } else {
        match parse_push(s) {
            Some(p) => if p.0.len() == 0 {
                // The body marker: everything to OP_ENDIF is body.
                match parse_body(p.1) {
                    Some(q) => Some((ParsedEnvelope { body: Some(q.0), ..acc }, q.1)),
                    None => None,
                }
            } else if p.0.len() == 1 && known_tag(p.0[0]) && p.1.len() < s.len() {
                match parse_push(p.1) {
                    Some(q) => if q.1.len() < p.1.len() {
                        parse_fields(q.1, apply_tag(acc, p.0[0], q.0))
                    } else {
                        None
                    },
                    None => None,
                }
            } else {
                None
            },
            None => None,
        }
    }
}

/// One envelope: `OP_FALSE OP_IF`, the protocol push, the fields.
pub open spec fn parse_envelope(s: Seq<u8>) -> Option<(ParsedEnvelope, Seq<u8>)> {
    if s.len() >= 2 && s[0] == OP_FALSE && s[1] == OP_IF {
        match parse_push(s.skip(2)) {
            Some(p) => if p.0 == seq![0x6fu8, 0x72u8, 0x64u8] {
                parse_fields(p.1, empty_envelope())
            } else {
                None
            },
            None => None,
        }
    } else {
        None
    }
}

/// All envelopes to the end of the script.
pub open spec fn parse_envelopes(s: Seq<u8>) -> Option<Seq<ParsedEnvelope>>
    decreases s.len(),
{
    if s.len() == 0 {
        Some(Seq::empty())
    } else {
        match parse_envelope(s) {
            Some(p) => if p.1.len() < s.len() {
                match parse_envelopes(p.1) {
                    Some(q) => Some(seq![p.0] + q),
                    None => None,
                }
            } else {
                None
            },
            None => None,
        }
    }
}

/// A whole reveal leaf script: the key push, `OP_CHECKSIG`, the envelopes.
pub open spec fn parse_reveal_script(s: Seq<u8>) -> Option<(Seq<u8>, Seq<ParsedEnvelope>)> {
    match parse_push(s) {
        Some(p) => if p.1.len() >= 1 && p.1[0] == OP_CHECKSIG {
            match parse_envelopes(p.1.skip(1)) {
                Some(q) => Some((p.0, q)),
                None => None,
            }
        } else {
            None
        },
        None => None,
    }
}

/// One tag-value pair steps the field parser.
pub proof fn lemma_parse_fields_step(t: u8, v: Seq<u8>, rest: Seq<u8>, acc: ParsedEnvelope)
    requires
        known_tag(t),
        v.len() < 0x1_0000_0000,
    ensures
        parse_fields(tag_pair(t, v) + rest, acc) == parse_fields(rest, apply_tag(acc, t, v)),
{
    let s = tag_pair(t, v) + rest;
    assert(push_encoding(seq![t]) + push_encoding(v) + rest =~= s);
    lemma_seq_add_assoc(push_encoding(seq![t]), push_encoding(v), rest);
    lemma_parse_push(seq![t], push_encoding(v) + rest);
    assert(parse_push(s) == Some((seq![t], push_encoding(v) + rest)));
    lemma_parse_push(v, rest);
    assert(s[0] == 1u8);
    assert(s.len() > 0 && s[0] != OP_ENDIF);
    assert((push_encoding(v) + rest).len() < s.len());
    assert(rest.len() < (push_encoding(v) + rest).len());
}

/// The body marker and chunks finish the envelope.
pub proof fn lemma_parse_body_chunks(b: Seq<u8>, rest: Seq<u8>)
    ensures
        parse_body(body_chunks(b) + (seq![OP_ENDIF] + rest)) == Some((b, rest)),
    decreases b.len(),
{
    if b.len() == 0 {
        assert(body_chunks(b) + (seq![OP_ENDIF] + rest) =~= seq![OP_ENDIF] + rest);
        let s = seq![OP_ENDIF] + rest;
        assert(s[0] == OP_ENDIF);
        assert(s.skip(1) =~= rest);
        assert(parse_body(s) == Some((Seq::<u8>::empty(), rest)));
        assert(Seq::<u8>::empty() =~= b);
    } else if b.len() <= 520 {
        assert(body_chunks(b) == push_encoding(b));
        let s = push_encoding(b) + (seq![OP_ENDIF] + rest);
        lemma_parse_push(b, seq![OP_ENDIF] + rest);
        assert(s[0] != OP_ENDIF);
        let tail = seq![OP_ENDIF] + rest;
        assert(tail[0] == OP_ENDIF);
        assert(tail.skip(1) =~= rest);
        assert(parse_body(tail) == Some((Seq::<u8>::empty(), rest)));
        assert(tail.len() < s.len());
        assert(b + Seq::<u8>::empty() =~= b);
    } else {
        let first = b.take(520);
        let remaining = b.skip(520);
        assert(body_chunks(b) == push_encoding(first) + body_chunks(remaining));
        let tail = body_chunks(remaining) + (seq![OP_ENDIF] + rest);
        let s = body_chunks(b) + (seq![OP_ENDIF] + rest);
        assert(s =~= push_encoding(first) + tail);
        lemma_parse_push(first, tail);
        lemma_parse_body_chunks(remaining, rest);
        assert(s[0] != OP_ENDIF);
        assert(tail.len() < s.len());
        assert(first + remaining =~= b);
    }
}

/// The body part and terminator finish the field parser.
pub proof fn lemma_parse_fields_body(b: Option<Seq<u8>>, rest: Seq<u8>, acc: ParsedEnvelope)
    requires
        acc.body is None,
    ensures
        parse_fields(body_field(b) + (seq![OP_ENDIF] + rest), acc) == Some(
            (
                ParsedEnvelope {
                    body: b,
                    ..acc
                },
                rest,
            ),
        ),
{
    match b {
        None => {
            assert(body_field(b) + (seq![OP_ENDIF] + rest) =~= seq![OP_ENDIF] + rest);
            let s = seq![OP_ENDIF] + rest;
            assert(s[0] == OP_ENDIF);
            assert(s.skip(1) =~= rest);
            assert((ParsedEnvelope { body: b, ..acc }) == acc);
        },
        Some(data) => {
            let s = body_field(b) + (seq![OP_ENDIF] + rest);
            assert(s =~= seq![0u8] + (body_chunks(data) + (seq![OP_ENDIF] + rest)));
            let tail = body_chunks(data) + (seq![OP_ENDIF] + rest);
            lemma_parse_push(Seq::<u8>::empty(), tail);
            assert(push_encoding(Seq::<u8>::empty()) =~= seq![0u8]);
            assert(push_encoding(Seq::<u8>::empty()) + tail =~= s);
            assert(parse_push(s) == Some((Seq::<u8>::empty(), tail)));
            assert(s[0] == 0u8 && s[0] != OP_ENDIF);
            lemma_parse_body_chunks(data, rest);
        },
    }
}

/// An optional non-chunked field steps the parser by its effect.
pub proof fn lemma_parse_opt_field(t: u8, v: Option<Seq<u8>>, rest: Seq<u8>, acc: ParsedEnvelope)
    requires
        known_tag(t),
        (v matches Some(b) ==> b.len() < 0x1_0000_0000),
    ensures
        parse_fields(opt_field(t, v) + rest, acc) == parse_fields(
            rest,
            match v {
                Some(b) => apply_tag(acc, t, b),
                None => acc,
            },
        ),
{
    match v {
        Some(b) => {
            lemma_parse_fields_step(t, b, rest, acc);
        },
        None => {
            assert(opt_field(t, v) + rest =~= rest);
        },
    }
}

/// The parent fields collect in order.
pub proof fn lemma_parse_parents(ps: Seq<InscriptionIdV>, rest: Seq<u8>, acc: ParsedEnvelope)
    requires
        forall|j: int| 0 <= j < ps.len() ==> (#[trigger] ps[j]).txid.len() == 32,
    ensures
        parse_fields(parent_fields(ps) + rest, acc) == parse_fields(
            rest,
            ParsedEnvelope {
                parents: acc.parents + ps.map_values(|id: InscriptionIdV| id_value(id)),
                ..acc
            },
        ),
    decreases ps.len(),
{
    if ps.len() == 0 {
        assert(parent_fields(ps) + rest =~= rest);
        assert(acc.parents + ps.map_values(|id: InscriptionIdV| id_value(id)) =~= acc.parents);
        assert((ParsedEnvelope {
            parents: acc.parents + ps.map_values(|id: InscriptionIdV| id_value(id)),
            ..acc
        }) == acc);
    } else {
        let first = ps[0];
        let value = id_value(first);
        assert(value.len() <= 48) by {
            crate::envelope::lemma_le_trimmed_len(first.index as nat);
        }
        let tail = parent_fields(ps.drop_first()) + rest;
        assert(parent_fields(ps) + rest =~= tag_pair(TAG_PARENT, value) + tail);
        lemma_parse_fields_step(TAG_PARENT, value, tail, acc);
        let acc1 = apply_tag(acc, TAG_PARENT, value);
        assert(forall|j: int|
            0 <= j < ps.drop_first().len() ==> (#[trigger] ps.drop_first()[j]).txid.len() == 32);
        lemma_parse_parents(ps.drop_first(), rest, acc1);
        assert(acc1.parents + ps.drop_first().map_values(|id: InscriptionIdV| id_value(id))
            =~= acc.parents + ps.map_values(|id: InscriptionIdV| id_value(id)));
        assert((ParsedEnvelope {
            parents: acc1.parents + ps.drop_first().map_values(|id: InscriptionIdV| id_value(id)),
            ..acc1
        }) == (ParsedEnvelope {
            parents: acc.parents + ps.map_values(|id: InscriptionIdV| id_value(id)),
            ..acc
        }));
    }
}

/// Metadata chunks concatenate back to the whole value.
pub proof fn lemma_parse_metadata_chunks(data: Seq<u8>, rest: Seq<u8>, acc: ParsedEnvelope)
    requires
        data.len() > 0,
    ensures
        parse_fields(chunked_pairs(TAG_METADATA, data) + rest, acc) == parse_fields(
            rest,
            ParsedEnvelope {
                metadata: match acc.metadata {
                    Some(m) => Some(m + data),
                    None => Some(data),
                },
                ..acc
            },
        ),
    decreases data.len(),
{
    if data.len() <= 520 {
        assert(chunked_pairs(TAG_METADATA, data) == tag_pair(TAG_METADATA, data));
        lemma_parse_fields_step(TAG_METADATA, data, rest, acc);
    } else {
        let first = data.take(520);
        let remaining = data.skip(520);
        let tail = chunked_pairs(TAG_METADATA, remaining) + rest;
        assert(chunked_pairs(TAG_METADATA, data) + rest =~= tag_pair(TAG_METADATA, first) + tail);
        lemma_parse_fields_step(TAG_METADATA, first, tail, acc);
        let acc1 = apply_tag(acc, TAG_METADATA, first);
        lemma_parse_metadata_chunks(remaining, rest, acc1);
        match acc.metadata {
            Some(m) => {
                assert(m + first + remaining =~= m + data);
            },
            None => {
                assert(first + remaining =~= data);
            },
        }
    }
}

/// The optional chunked metadata field, stepping only when non-empty.
pub proof fn lemma_parse_opt_metadata(v: Option<Seq<u8>>, rest: Seq<u8>, acc: ParsedEnvelope)
    requires
        acc.metadata is None,
        (v matches Some(b) ==> b.len() > 0),
    ensures
        parse_fields(opt_chunked_field(TAG_METADATA, v) + rest, acc) == parse_fields(
            rest,
            ParsedEnvelope { metadata: v, ..acc },
        ),
{
    match v {
        Some(b) => {
            lemma_parse_metadata_chunks(b, rest, acc);
        },
        None => {
            assert(opt_chunked_field(TAG_METADATA, v) + rest =~= rest);
            assert((ParsedEnvelope { metadata: v, ..acc }) == acc);
        },
    }
}

/// The raw field values the parser must recover for an inscription.
pub open spec fn envelope_fields_of(i: InscriptionV) -> ParsedEnvelope {
    ParsedEnvelope {
        body: i.body,
        content_type: i.content_type,
        content_encoding: i.content_encoding,
        delegate: opt_id_value(i.delegate),
        metadata: i.metadata,
        metaprotocol: i.metaprotocol,
        parents: i.parents.map_values(|id: InscriptionIdV| id_value(id)),
        pointer: opt_value(i.pointer),
        rune: opt_rune_value(i.rune),
    }
}

/// An inscription whose fields survive the round trip: a metadata value, if
/// present, is non-empty (an empty one encodes to nothing and parses back as
/// absent).
pub open spec fn round_trippable(i: InscriptionV) -> bool {
    &&& wf_inscription(i)
    &&& (i.metadata matches Some(m) ==> m.len() > 0)
}

/// The accumulator after the content type, content encoding, metaprotocol
/// and parent fields of an inscription.
pub open spec fn mid_acc(i: InscriptionV) -> ParsedEnvelope {
    ParsedEnvelope {
        body: None,
        content_type: i.content_type,
        content_encoding: i.content_encoding,
        delegate: None,
        metadata: None,
        metaprotocol: i.metaprotocol,
        parents: i.parents.map_values(|id: InscriptionIdV| id_value(id)),
        pointer: None,
        rune: None,
    }
}

/// The first four fields of an envelope step the parser to `mid_acc`.
#[verifier::rlimit(100)]
proof fn lemma_parse_envelope_front(i: InscriptionV, tail: Seq<u8>)
    requires
        round_trippable(i),
    ensures
        parse_fields(
            opt_field(TAG_CONTENT_TYPE, i.content_type) + (opt_field(
                TAG_CONTENT_ENCODING,
                i.content_encoding,
            ) + (opt_field(TAG_METAPROTOCOL, i.metaprotocol) + (parent_fields(i.parents)
                + tail))),
            empty_envelope(),
        ) == parse_fields(tail, mid_acc(i)),
{
    let r3 = parent_fields(i.parents) + tail;
    let r2 = opt_field(TAG_METAPROTOCOL, i.metaprotocol) + r3;
    let r1 = opt_field(TAG_CONTENT_ENCODING, i.content_encoding) + r2;
    let acc0 = empty_envelope();
    lemma_parse_opt_field(TAG_CONTENT_TYPE, i.content_type, r1, acc0);
    let acc1 = (match i.content_type {
        Some(b) => apply_tag(acc0, TAG_CONTENT_TYPE, b),
        None => acc0,
    });
    lemma_parse_opt_field(TAG_CONTENT_ENCODING, i.content_encoding, r2, acc1);
    let acc2 = (match i.content_encoding {
        Some(b) => apply_tag(acc1, TAG_CONTENT_ENCODING, b),
        None => acc1,
    });
    lemma_parse_opt_field(TAG_METAPROTOCOL, i.metaprotocol, r3, acc2);
    let acc3 = (match i.metaprotocol {
        Some(b) => apply_tag(acc2, TAG_METAPROTOCOL, b),
        None => acc2,
    });
    lemma_parse_parents(i.parents, tail, acc3);
    assert(acc3.parents + i.parents.map_values(|id: InscriptionIdV| id_value(id)) =~= mid_acc(
        i,
    ).parents);
    assert((ParsedEnvelope {
        parents: acc3.parents + i.parents.map_values(|id: InscriptionIdV| id_value(id)),
        ..acc3
    }) == mid_acc(i));
}

/// The last five fields of an envelope finish the parse with the
/// inscription's field values.
#[verifier::rlimit(100)]
proof fn lemma_parse_envelope_back(i: InscriptionV, rest: Seq<u8>)
    requires
        round_trippable(i),
    ensures
        parse_fields(
            opt_field(TAG_DELEGATE, opt_id_value(i.delegate)) + (opt_field(
                TAG_POINTER,
                opt_value(i.pointer),
            ) + (opt_chunked_field(TAG_METADATA, i.metadata) + (opt_field(
                TAG_RUNE,
                opt_rune_value(i.rune),
            ) + (body_field(i.body) + (seq![OP_ENDIF] + rest))))),
            mid_acc(i),
        ) == Some((envelope_fields_of(i), rest)),
{
    let r9 = seq![OP_ENDIF] + rest;
    let r8 = body_field(i.body) + r9;
    let r7 = opt_field(TAG_RUNE, opt_rune_value(i.rune)) + r8;
    let r6 = opt_chunked_field(TAG_METADATA, i.metadata) + r7;
    let r5 = opt_field(TAG_POINTER, opt_value(i.pointer)) + r6;
    let acc4 = mid_acc(i);
    assert(opt_id_value(i.delegate) matches Some(b) ==> b.len() < 0x1_0000_0000) by {
        if i.delegate is Some {
            crate::envelope::lemma_le_trimmed_len(i.delegate->Some_0.index as nat);
        }
    }
    lemma_parse_opt_field(TAG_DELEGATE, opt_id_value(i.delegate), r5, acc4);
    let acc5 = (match opt_id_value(i.delegate) {
        Some(b) => apply_tag(acc4, TAG_DELEGATE, b),
        None => acc4,
    });
    assert(opt_value(i.pointer) matches Some(b) ==> b.len() < 0x1_0000_0000) by {
        if i.pointer is Some {
            crate::envelope::lemma_le_trimmed_len(i.pointer->Some_0 as nat);
        }
    }
    lemma_parse_opt_field(TAG_POINTER, opt_value(i.pointer), r6, acc5);
    let acc6 = (match opt_value(i.pointer) {
        Some(b) => apply_tag(acc5, TAG_POINTER, b),
        None => acc5,
    });
    assert(acc6.metadata is None);
    lemma_parse_opt_metadata(i.metadata, r7, acc6);
    let acc7 = ParsedEnvelope { metadata: i.metadata, ..acc6 };
    assert(opt_rune_value(i.rune) matches Some(b) ==> b.len() < 0x1_0000_0000) by {
        if i.rune is Some {
            crate::envelope::lemma_le_trimmed_len(i.rune->Some_0 as nat);
        }
    }
    lemma_parse_opt_field(TAG_RUNE, opt_rune_value(i.rune), r8, acc7);
    let acc8 = (match opt_rune_value(i.rune) {
        Some(b) => apply_tag(acc7, TAG_RUNE, b),
        None => acc7,
    });
    assert(acc8.body is None);
    lemma_parse_fields_body(i.body, rest, acc8);
    assert((ParsedEnvelope { body: i.body, ..acc8 }) == envelope_fields_of(i));
}

/// Twelve left-associated segments reassociate to the right.
#[verifier::rlimit(100)]
proof fn lemma_reassoc12(
    a0: Seq<u8>, a1: Seq<u8>, a2: Seq<u8>, a3: Seq<u8>, a4: Seq<u8>, a5: Seq<u8>, a6: Seq<u8>,
    a7: Seq<u8>, a8: Seq<u8>, a9: Seq<u8>, a10: Seq<u8>, a11: Seq<u8>, rest: Seq<u8>,
)
    ensures
        a0 + a1 + a2 + a3 + a4 + a5 + a6 + a7 + a8 + a9 + a10 + a11 + rest == a0 + (a1 + (a2 + (a3
            + (a4 + (a5 + (a6 + (a7 + (a8 + (a9 + (a10 + (a11 + rest))))))))))),
{
    assert(a0 + a1 + a2 + a3 + a4 + a5 + a6 + a7 + a8 + a9 + a10 + a11 + rest =~= a0 + (a1 + (a2
        + (a3 + (a4 + (a5 + (a6 + (a7 + (a8 + (a9 + (a10 + (a11 + rest))))))))))));
}

/// An envelope starts with its two opening opcodes.
proof fn lemma_envelope_len(i: InscriptionV)
    ensures
        envelope(i).len() >= 2,
        envelope(i)[0] == OP_FALSE,
        envelope(i)[1] == OP_IF,
{
}

/// One whole envelope parses back to the inscription's field values.
#[verifier::rlimit(100)]
pub proof fn lemma_parse_envelope(i: InscriptionV, rest: Seq<u8>)
    requires
        round_trippable(i),
    ensures
        parse_envelope(envelope(i) + rest) == Some((envelope_fields_of(i), rest)),
{
    let protocol = seq![0x6fu8, 0x72u8, 0x64u8];
    let f1 = opt_field(TAG_CONTENT_TYPE, i.content_type);
    let f2 = opt_field(TAG_CONTENT_ENCODING, i.content_encoding);
    let f3 = opt_field(TAG_METAPROTOCOL, i.metaprotocol);
    let f4 = parent_fields(i.parents);
    let f5 = opt_field(TAG_DELEGATE, opt_id_value(i.delegate));
    let f6 = opt_field(TAG_POINTER, opt_value(i.pointer));
    let f7 = opt_chunked_field(TAG_METADATA, i.metadata);
    let f8 = opt_field(TAG_RUNE, opt_rune_value(i.rune));
    let f9 = body_field(i.body);
    let s = envelope(i) + rest;
    let back = f5 + (f6 + (f7 + (f8 + (f9 + (seq![OP_ENDIF] + rest)))));
    let r0 = f1 + (f2 + (f3 + (f4 + back)));
    lemma_reassoc12(
        seq![OP_FALSE, OP_IF],
        push_encoding(protocol),
        f1,
        f2,
        f3,
        f4,
        f5,
        f6,
        f7,
        f8,
        f9,
        seq![OP_ENDIF],
        rest,
    );
    assert(s == seq![OP_FALSE, OP_IF] + (push_encoding(protocol) + (f1 + (f2 + (f3 + (f4 + (f5 + (
    f6 + (f7 + (f8 + (f9 + (seq![OP_ENDIF] + rest))))))))))));
    assert(s[0] == OP_FALSE && s[1] == OP_IF);
    assert(s.skip(2) =~= push_encoding(protocol) + r0);
    lemma_parse_push(protocol, r0);
    lemma_parse_envelope_front(i, back);
    lemma_parse_envelope_back(i, rest);
}

pub open spec fn all_round_trippable(s: Seq<InscriptionV>) -> bool {
    forall|j: int| 0 <= j < s.len() ==> round_trippable(#[trigger] s[j])
}

/// Every envelope of a batch parses back in order.
#[verifier::rlimit(100)]
pub proof fn lemma_parse_envelopes(s: Seq<InscriptionV>)
    requires
        all_round_trippable(s),
    ensures
        parse_envelopes(envelopes(s)) == Some(
            s.map_values(|i: InscriptionV| envelope_fields_of(i)),
        ),
    decreases s.len(),
{
    if s.len() == 0 {
        assert(envelopes(s).len() == 0);
        assert(s.map_values(|i: InscriptionV| envelope_fields_of(i)) =~= Seq::<
            ParsedEnvelope,
        >::empty());
    } else {
        let first = s[0];
        let tail = envelopes(s.drop_first());
        assert(envelopes(s) == envelope(first) + tail);
        lemma_parse_envelope(first, tail);
        assert(forall|j: int| 0 <= j < s.drop_first().len() ==> round_trippable(
            #[trigger] s.drop_first()[j],
        ));
        lemma_parse_envelopes(s.drop_first());
        lemma_envelope_len(first);
        assert(envelopes(s).len() > tail.len());
        assert(seq![envelope_fields_of(first)] + s.drop_first().map_values(
            |i: InscriptionV| envelope_fields_of(i),
        ) =~= s.map_values(|i: InscriptionV| envelope_fields_of(i)));
    }
}

/// Law: the reveal leaf script round-trips. Parsing the encoded script of a
/// batch recovers the public key and, for each inscription in order, exactly
/// its field values: the content, content type, content encoding, metadata,
/// metaprotocol, parents, delegate, pointer and rune.
pub proof fn lemma_reveal_script_round_trip(pubkey: Seq<u8>, s: Seq<InscriptionV>)
    requires
        pubkey.len() == 32,
        all_round_trippable(s),
    ensures
        parse_reveal_script(reveal_script_bytes(pubkey, s)) == Some(
            (pubkey, s.map_values(|i: InscriptionV| envelope_fields_of(i))),
        ),
{
    let script = reveal_script_bytes(pubkey, s);
    let tail = seq![OP_CHECKSIG] + envelopes(s);
    assert(script =~= push_encoding(pubkey) + tail);
    lemma_parse_push(pubkey, tail);
    assert(tail[0] == OP_CHECKSIG);
    assert(tail.skip(1) =~= envelopes(s));
    lemma_parse_envelopes(s);
}

/// The little-endian value of trimmed bytes.
pub open spec fn le_value(s: Seq<u8>) -> nat
    decreases s.len(),
{
    if s.len() == 0 {
        0
    } else {
        (s[0] + 0x100 * le_value(s.drop_first())) as nat
    }
}

/// Trimming and re-reading a little-endian value is the identity, so the
/// parsed pointer, rune and id index values determine the originals.
pub proof fn lemma_le_value_trimmed(v: nat)
    ensures
        le_value(le_trimmed(v)) == v,
    decreases v,
{
    if v > 0 {
        lemma_le_value_trimmed(v / 0x100);
        assert(le_trimmed(v).drop_first() =~= le_trimmed(v / 0x100));
        assert(le_trimmed(v)[0] == (v % 0x100) as u8);
    }
}

/// An id's tag value splits back into its txid and index.
pub proof fn lemma_id_value_splits(id: InscriptionIdV)
    requires
        id.txid.len() == 32,
    ensures
        id_value(id).take(32) == id.txid,
        le_value(id_value(id).skip(32)) == id.index as nat,
{
    assert(id_value(id).take(32) =~= id.txid);
    assert(id_value(id).skip(32) =~= le_trimmed(id.index as nat));
    lemma_le_value_trimmed(id.index as nat);
}

} // verus!
