//! Wire codec behaviour: round trips and exact byte layout.

use cosmos_core::wire::{decode_message, encode_message, ReplicationMessage, WireEntityRef};

fn upsert(kind: u16, wire_ref: WireEntityRef, payload: Vec<u8>) -> ReplicationMessage {
    ReplicationMessage::Upsert { component_kind: kind, wire_ref, payload }
}

#[test]
fn round_trip_direct_upsert() {
    let m = upsert(3, WireEntityRef::Direct { origin_handle: 7 }, vec![1, 2, 3, 4]);
    let bytes = encode_message(&m);
    assert_eq!(decode_message(&bytes), Some(m));
}

#[test]
fn round_trip_empty_payload() {
    let m = upsert(0, WireEntityRef::Direct { origin_handle: 0 }, vec![]);
    let bytes = encode_message(&m);
    assert_eq!(decode_message(&bytes), Some(m));
}

#[test]
fn round_trip_indirect() {
    let m = upsert(
        65535,
        WireEntityRef::Indirect {
            container: Box::new(WireEntityRef::Direct { origin_handle: u64::MAX }),
            sub_id: 9,
        },
        vec![0xFF; 100],
    );
    let bytes = encode_message(&m);
    assert_eq!(decode_message(&bytes), Some(m));
}

#[test]
fn round_trip_nested_indirect() {
    let inner = WireEntityRef::Indirect {
        container: Box::new(WireEntityRef::Direct { origin_handle: 42 }),
        sub_id: 1,
    };
    let m = ReplicationMessage::Remove {
        component_kind: 17,
        wire_ref: WireEntityRef::Indirect { container: Box::new(inner), sub_id: u32::MAX },
    };
    let bytes = encode_message(&m);
    assert_eq!(decode_message(&bytes), Some(m));
}

#[test]
fn round_trip_remove() {
    let m = ReplicationMessage::Remove {
        component_kind: 513,
        wire_ref: WireEntityRef::Direct { origin_handle: 7 },
    };
    let bytes = encode_message(&m);
    assert_eq!(decode_message(&bytes), Some(m));
}

#[test]
fn exact_byte_layout_upsert() {
    let m = upsert(0x0102, WireEntityRef::Direct { origin_handle: 7 }, vec![0xAA]);
    let bytes = encode_message(&m);
    let expected: Vec<u8> = vec![
        0, // upsert discriminant
        0x02, 0x01, // kind, little-endian
        0, 7, 0, 0, 0, 0, 0, 0, 0, // direct ref: tag + handle
        1, 0, 0, 0, 0, 0, 0, 0, // payload length
        0xAA, // payload
    ];
    assert_eq!(bytes, expected);
}

#[test]
fn exact_byte_layout_remove_indirect() {
    let m = ReplicationMessage::Remove {
        component_kind: 5,
        wire_ref: WireEntityRef::Indirect {
            container: Box::new(WireEntityRef::Direct { origin_handle: 0x0300 }),
            sub_id: 2,
        },
    };
    let bytes = encode_message(&m);
    let expected: Vec<u8> = vec![
        1, // remove discriminant
        5, 0, // kind
        1, // indirect tag
        0, 0x00, 0x03, 0, 0, 0, 0, 0, 0, // container: direct tag + handle
        2, 0, 0, 0, // sub id
    ];
    assert_eq!(bytes, expected);
}

#[test]
fn decode_rejects_malformed() {
    assert_eq!(decode_message(&vec![]), None);
    assert_eq!(decode_message(&vec![0]), None);
    // unknown message discriminant
    assert_eq!(decode_message(&vec![2, 0, 0, 0, 7, 0, 0, 0, 0, 0, 0, 0]), None);
    // unknown reference discriminant
    assert_eq!(decode_message(&vec![1, 0, 0, 9, 7, 0, 0, 0, 0, 0, 0, 0]), None);
    // truncated handle
    assert_eq!(decode_message(&vec![1, 0, 0, 0, 7, 0, 0]), None);
    // payload length does not match the frame
    assert_eq!(
        decode_message(&vec![0, 0, 0, 0, 7, 0, 0, 0, 0, 0, 0, 0, 5, 0, 0, 0, 0, 0, 0, 0, 0xAA]),
        None
    );
}

#[test]
fn decode_rejects_trailing_garbage() {
    let m = ReplicationMessage::Remove {
        component_kind: 1,
        wire_ref: WireEntityRef::Direct { origin_handle: 1 },
    };
    let mut bytes = encode_message(&m);
    assert!(decode_message(&bytes).is_some());
    bytes.push(0);
    assert_eq!(decode_message(&bytes), None);
}
