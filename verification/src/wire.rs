//! Wire representation of replication traffic.
//!
//! A replicated entity is addressed by a [`WireEntityRef`]: either directly,
//! by the authoritative side's handle (the stable cross-process key), or
//! indirectly, as a sub-object reached through a container reference plus a
//! sub-identifier. A [`ReplicationMessage`] carries either an upsert of a
//! component value (as opaque payload bytes produced by the component's own
//! serializer) or a removal notice.
//!
//! The byte layout is fixed here and proved invertible: `message_parse`
//! recovers exactly the fields that `message_bytes` wrote, and parsing
//! rejects exactly the byte strings that no message produces.

use vstd::prelude::*;

use crate::bytes::{
    copy_range, push_u16_le, push_u32_le, push_u64_le, read_u16_le, read_u32_le, read_u64_le,
    lemma_u16_le_value, lemma_u32_le_value, lemma_u64_le_value, u16_from_le, u16_le, u32_from_le,
    u32_le, u64_from_le, u64_le,
};

verus! {

/// A serializable reference to an entity as understood on the wire.
#[derive(Debug, PartialEq, Eq)]
pub enum WireEntityRef {
    /// An independently addressable entity, keyed by the authoritative
    /// side's handle for it.
    Direct { origin_handle: u64 },
    /// A sub-object without top-level identity: resolve the container
    /// first, and look `sub_id` up in the container's sub-object registry.
    Indirect { container: Box<WireEntityRef>, sub_id: u32 },
}

/// One unit of replication traffic.
#[derive(Debug, PartialEq, Eq)]
pub enum ReplicationMessage {
    /// Insert or replace the component of kind `component_kind` on the
    /// addressed entity with the value serialized in `payload`.
    Upsert { component_kind: u16, wire_ref: WireEntityRef, payload: Vec<u8> },
    /// Remove the component of kind `component_kind` from the addressed
    /// entity.
    Remove { component_kind: u16, wire_ref: WireEntityRef },
}

/// The byte encoding of a wire reference: a discriminant byte, then either
/// the origin handle or the encoded container followed by the sub-id.
pub open spec fn ref_bytes(r: WireEntityRef) -> Seq<u8>
    decreases r,
{
    match r {
        WireEntityRef::Direct { origin_handle } => seq![0u8] + u64_le(origin_handle),
        WireEntityRef::Indirect { container, sub_id } => seq![1u8] + ref_bytes(*container)
            + u32_le(sub_id),
    }
}

/// Parses one wire reference from the front of `s`, yielding the reference
/// and the number of bytes it occupied.
pub open spec fn ref_parse(s: Seq<u8>) -> Option<(WireEntityRef, int)>
    decreases s.len(),
{
    if s.len() < 1 {
        None
    } else if s[0] == 0u8 {
        if s.len() < 9 {
            None
        } else {
            Some(
                (
                    WireEntityRef::Direct {
                        origin_handle: u64_from_le(
                            s[1],
                            s[2],
                            s[3],
                            s[4],
                            s[5],
                            s[6],
                            s[7],
                            s[8],
                        ),
                    },
                    9,
                ),
            )
        }
    } else if s[0] == 1u8 {
        match ref_parse(s.skip(1)) {
            Some((container, used)) => {
                if s.len() >= 1 + used + 4 {
                    Some(
                        (
                            WireEntityRef::Indirect {
                                container: Box::new(container),
                                sub_id: u32_from_le(
                                    s[1 + used],
                                    s[2 + used],
                                    s[3 + used],
                                    s[4 + used],
                                ),
                            },
                            1 + used + 4,
                        ),
                    )
                } else {
                    None
                }
            },
            None => None,
        }
    } else {
        None
    }
}

/// A parsed wire reference occupies at least one byte and no more than the
/// whole input.
pub proof fn lemma_ref_parse_bounds(s: Seq<u8>)
    ensures
        ref_parse(s) matches Some((r, used)) ==> 1 <= used <= s.len(),
    decreases s.len(),
{
    if s.len() >= 1 && s[0] == 1u8 {
        lemma_ref_parse_bounds(s.skip(1));
    }
}

/// Parsing an encoded reference, with anything after it, yields exactly the
/// reference back and consumes exactly its bytes.
pub proof fn lemma_ref_round_trip(r: WireEntityRef, rest: Seq<u8>)
    ensures
        ref_parse(ref_bytes(r) + rest) == Some((r, ref_bytes(r).len() as int)),
    decreases r,
{
    let s = ref_bytes(r) + rest;
    match r {
        WireEntityRef::Direct { origin_handle } => {
            let h = origin_handle;
            assert(s[0] == 0u8);
            assert(s.len() >= 9);
            assert forall|i: int| 0 <= i < 8 implies s[1 + i] == u64_le(h)[i] by {}
            lemma_u64_le_value(h);
            assert(u64_from_le(s[1], s[2], s[3], s[4], s[5], s[6], s[7], s[8]) == h);
        },
        WireEntityRef::Indirect { container, sub_id } => {
            let c = *container;
            let cb = ref_bytes(c);
            let tail = u32_le(sub_id) + rest;
            assert(s[0] == 1u8);
            assert(s.skip(1) =~= cb + tail);
            lemma_ref_round_trip(c, tail);
            let used: int = cb.len() as int;
            assert(ref_parse(s.skip(1)) == Some((c, used)));
            lemma_ref_parse_bounds(s.skip(1));
            assert(s.len() >= 1 + used + 4);
            assert forall|i: int| 0 <= i < 4 implies s[1 + used + i] == u32_le(sub_id)[i] by {
                assert(s[1 + used + i] == (cb + tail)[used + i]);
            }
            lemma_u32_le_value(sub_id);
            assert(u32_from_le(s[1 + used], s[2 + used], s[3 + used], s[4 + used]) == sub_id);
        },
    }
}

/// The payload must fit the length prefix of the byte format.
pub open spec fn wf_message(m: ReplicationMessage) -> bool {
    match m {
        ReplicationMessage::Upsert { payload, .. } => payload@.len() <= u64::MAX,
        ReplicationMessage::Remove { .. } => true,
    }
}

/// The byte encoding of a message: a discriminant byte, the component kind,
/// the wire reference, and, for an upsert, the length-prefixed payload.
pub open spec fn message_bytes(m: ReplicationMessage) -> Seq<u8> {
    match m {
        ReplicationMessage::Upsert { component_kind, wire_ref, payload } => seq![0u8] + u16_le(
            component_kind,
        ) + ref_bytes(wire_ref) + u64_le(payload@.len() as u64) + payload@,
        ReplicationMessage::Remove { component_kind, wire_ref } => seq![1u8] + u16_le(
            component_kind,
        ) + ref_bytes(wire_ref),
    }
}

/// The fields a message carries, with the payload as an abstract byte
/// sequence (empty for a removal).
pub open spec fn message_parts(m: ReplicationMessage) -> (u8, u16, WireEntityRef, Seq<u8>) {
    match m {
        ReplicationMessage::Upsert { component_kind, wire_ref, payload } => (
            0u8,
            component_kind,
            wire_ref,
            payload@,
        ),
        ReplicationMessage::Remove { component_kind, wire_ref } => (
            1u8,
            component_kind,
            wire_ref,
            Seq::<u8>::empty(),
        ),
    }
}

/// Parses a whole frame as one message; `None` on any byte string that no
/// message encodes to, including trailing garbage.
pub open spec fn message_parse(s: Seq<u8>) -> Option<(u8, u16, WireEntityRef, Seq<u8>)> {
    if s.len() < 3 {
        None
    } else {
        let kind = u16_from_le(s[1], s[2]);
        if s[0] == 0u8 {
            match ref_parse(s.skip(3)) {
                Some((wire_ref, used)) => {
                    let p: int = 3 + used;
                    if s.len() >= p + 8 {
                        let n: int = u64_from_le(
                            s[p],
                            s[p + 1],
                            s[p + 2],
                            s[p + 3],
                            s[p + 4],
                            s[p + 5],
                            s[p + 6],
                            s[p + 7],
                        ) as int;
                        if s.len() == p + 8 + n {
                            Some((0u8, kind, wire_ref, s.subrange(p + 8, p + 8 + n)))
                        } else {
                            None
                        }
                    } else {
                        None
                    }
                },
                None => None,
            }
        } else if s[0] == 1u8 {
            match ref_parse(s.skip(3)) {
                Some((wire_ref, used)) => {
                    if s.len() == 3 + used {
                        Some((1u8, kind, wire_ref, Seq::<u8>::empty()))
                    } else {
                        None
                    }
                },
                None => None,
            }
        } else {
            None
        }
    }
}

/// Round trip of the codec: parsing what a message encodes to yields exactly
/// that message's fields — the kind, the wire reference and every payload
/// byte come back unchanged.
pub proof fn lemma_message_round_trip(m: ReplicationMessage)
    requires
        wf_message(m),
    ensures
        message_parse(message_bytes(m)) == Some(message_parts(m)),
{
    let s = message_bytes(m);
    match m {
        ReplicationMessage::Upsert { component_kind, wire_ref, payload } => {
            let rb = ref_bytes(wire_ref);
            let lenb = u64_le(payload@.len() as u64);
            assert(s =~= seq![0u8] + u16_le(component_kind) + rb + lenb + payload@);
            assert(s[0] == 0u8);
            assert(s[1] == u16_le(component_kind)[0]);
            assert(s[2] == u16_le(component_kind)[1]);
            lemma_u16_le_value(component_kind);
            assert(s.skip(3) =~= rb + (lenb + payload@));
            lemma_ref_round_trip(wire_ref, lenb + payload@);
            let used: int = rb.len() as int;
            let p: int = 3 + used;
            assert(s.len() == p + 8 + payload@.len());
            assert forall|i: int| 0 <= i < 8 implies s[p + i] == lenb[i] by {
                assert(s[p + i] == (rb + (lenb + payload@))[used + i]);
            }
            lemma_u64_le_value(payload@.len() as u64);
            assert(u64_from_le(s[p], s[p + 1], s[p + 2], s[p + 3], s[p + 4], s[p + 5], s[p + 6], s[p
                + 7]) == payload@.len() as u64);
            assert(s.subrange(p + 8, p + 8 + payload@.len() as int) =~= payload@);
        },
        ReplicationMessage::Remove { component_kind, wire_ref } => {
            let rb = ref_bytes(wire_ref);
            assert(s[0] == 1u8);
            assert(s[1] == u16_le(component_kind)[0]);
            assert(s[2] == u16_le(component_kind)[1]);
            lemma_u16_le_value(component_kind);
            assert(s.skip(3) =~= rb + Seq::<u8>::empty());
            assert(rb + Seq::<u8>::empty() =~= rb);
            lemma_ref_round_trip(wire_ref, Seq::<u8>::empty());
            assert(s.len() == 3 + rb.len());
        },
    }
}

/// Appends the byte encoding of `wire_ref`.
pub fn encode_wire_ref(out: &mut Vec<u8>, wire_ref: &WireEntityRef)
    ensures
        final(out)@ == old(out)@ + ref_bytes(*wire_ref),
    decreases *wire_ref,
{
    match wire_ref {
        WireEntityRef::Direct { origin_handle } => {
            out.push(0u8);
            push_u64_le(out, *origin_handle);
            assert(out@ =~= old(out)@ + ref_bytes(*wire_ref));
        },
        WireEntityRef::Indirect { container, sub_id } => {
            out.push(1u8);
            encode_wire_ref(out, container);
            push_u32_le(out, *sub_id);
            assert(out@ =~= old(out)@ + ref_bytes(*wire_ref));
        },
    }
}

/// Encodes a message into the byte frame that `message_parse` inverts.
pub fn encode_message(m: &ReplicationMessage) -> (r: Vec<u8>)
    ensures
        r@ == message_bytes(*m),
        wf_message(*m),
{
    let mut out: Vec<u8> = Vec::new();
    match m {
        ReplicationMessage::Upsert { component_kind, wire_ref, payload } => {
            out.push(0u8);
            push_u16_le(&mut out, *component_kind);
            encode_wire_ref(&mut out, wire_ref);
            let n: usize = payload.len();
            push_u64_le(&mut out, n as u64);
            let mut i: usize = 0;
            let ghost prefix = out@;
            while i < n
                invariant
                    i <= n,
                    n == payload@.len(),
                    out@ == prefix + payload@.subrange(0, i as int),
                decreases n - i,
            {
                out.push(payload[i]);
                assert(out@ =~= prefix + payload@.subrange(0, i + 1));
                i = i + 1;
            }
            assert(payload@.subrange(0, n as int) =~= payload@);
            assert(out@ =~= message_bytes(*m));
        },
        ReplicationMessage::Remove { component_kind, wire_ref } => {
            out.push(1u8);
            push_u16_le(&mut out, *component_kind);
            encode_wire_ref(&mut out, wire_ref);
            assert(out@ =~= message_bytes(*m));
        },
    }
    out
}

/// Parses one wire reference at `pos`, returning it with the position just
/// past it; `None` exactly when the spec-level parse fails there.
pub fn decode_wire_ref(bytes: &Vec<u8>, pos: usize) -> (r: Option<(WireEntityRef, usize)>)
    requires
        pos <= bytes@.len(),
    ensures
        r matches Some((wire_ref, end)) ==> pos < end <= bytes@.len() && ref_parse(
            bytes@.skip(pos as int),
        ) == Some((wire_ref, end - pos)),
        r is None ==> ref_parse(bytes@.skip(pos as int)) is None,
    decreases bytes@.len() - pos,
{
    let len = bytes.len();
    let ghost s = bytes@.skip(pos as int);
    if pos >= len {
        return None;
    }
    let tag = bytes[pos];
    assert(s[0] == tag);
    if tag == 0u8 {
        if len - pos < 9 {
            return None;
        }
        let h = read_u64_le(bytes, pos + 1);
        assert(bytes@[pos + 1] == s[1] && bytes@[pos + 2] == s[2] && bytes@[pos + 3] == s[3]
            && bytes@[pos + 4] == s[4] && bytes@[pos + 5] == s[5] && bytes@[pos + 6] == s[6]
            && bytes@[pos + 7] == s[7] && bytes@[pos + 8] == s[8]);
        Some((WireEntityRef::Direct { origin_handle: h }, pos + 9))
    } else if tag == 1u8 {
        assert(s.skip(1) =~= bytes@.skip(pos + 1));
        match decode_wire_ref(bytes, pos + 1) {
            Some((container, inner_end)) => {
                let ghost used: int = inner_end - (pos + 1);
                assert(ref_parse(s.skip(1)) == Some((container, used)));
                if len - inner_end < 4 {
                    assert(s.len() < 1 + used + 4);
                    return None;
                }
                let sub_id = read_u32_le(bytes, inner_end);
                assert(bytes@[inner_end as int] == s[1 + used] && bytes@[inner_end + 1] == s[2
                    + used] && bytes@[inner_end + 2] == s[3 + used] && bytes@[inner_end + 3] == s[4
                    + used]);
                Some((WireEntityRef::Indirect { container: Box::new(container), sub_id },
                inner_end + 4))
            },
            None => {
                assert(ref_parse(s.skip(1)) is None);
                None
            },
        }
    } else {
        None
    }
}

/// Parses a whole frame as one message, recovering exactly the fields the
/// sender encoded; `None` exactly on the frames that no message encodes to.
pub fn decode_message(bytes: &Vec<u8>) -> (r: Option<ReplicationMessage>)
    ensures
        r matches Some(m) ==> message_parse(bytes@) == Some(message_parts(m)) && wf_message(m),
        r is None ==> message_parse(bytes@) is None,
{
    let len = bytes.len();
    let ghost s = bytes@;
    if len < 3 {
        return None;
    }
    let tag = bytes[0];
    let component_kind = read_u16_le(bytes, 1);
    assert(component_kind == u16_from_le(s[1], s[2]));
    if tag == 0u8 {
        assert(s.skip(3) =~= bytes@.skip(3));
        match decode_wire_ref(bytes, 3) {
            Some((wire_ref, end)) => {
                let ghost used: int = end - 3;
                let ghost p: int = 3 + used;
                if len - end < 8 {
                    return None;
                }
                let n64 = read_u64_le(bytes, end);
                if n64 > usize::MAX as u64 {
                    assert(s.len() < p + 8 + n64 as int);
                    return None;
                }
                let n = n64 as usize;
                if len - (end + 8) != n {
                    return None;
                }
                let payload = copy_range(bytes, end + 8, n);
                assert(payload@ == s.subrange(p + 8, p + 8 + n64 as int));
                Some(ReplicationMessage::Upsert { component_kind, wire_ref, payload })
            },
            None => None,
        }
    } else if tag == 1u8 {
        assert(s.skip(3) =~= bytes@.skip(3));
        match decode_wire_ref(bytes, 3) {
            Some((wire_ref, end)) => {
                if end != len {
                    return None;
                }
                Some(ReplicationMessage::Remove { component_kind, wire_ref })
            },
            None => None,
        }
    } else {
        None
    }
}

} // verus!
