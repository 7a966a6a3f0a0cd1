use prost::encoding::{self, WireType};
use vector_extensions::topsql::tikv::tag::{classify, ResourceGroupTag, TagClass};

fn tag(sql: Option<&[u8]>, plan: Option<&[u8]>, label: Option<i32>) -> ResourceGroupTag {
    ResourceGroupTag {
        sql_digest: sql.map(|b| b.to_vec()),
        plan_digest: plan.map(|b| b.to_vec()),
        label,
    }
}

fn prost_bytes(t: &ResourceGroupTag) -> Vec<u8> {
    let mut buf = Vec::new();
    if let Some(d) = &t.sql_digest {
        encoding::bytes::encode(1, d, &mut buf);
    }
    if let Some(d) = &t.plan_digest {
        encoding::bytes::encode(2, d, &mut buf);
    }
    if let Some(l) = &t.label {
        encoding::int32::encode(3, l, &mut buf);
    }
    buf
}

fn samples() -> Vec<ResourceGroupTag> {
    let long: Vec<u8> = (0..300).map(|i| (i % 251) as u8).collect();
    vec![
        tag(None, None, None),
        tag(Some(&[]), Some(&[]), None),
        tag(Some(&[1, 2, 3]), None, None),
        tag(None, Some(&[9]), Some(0)),
        tag(Some(&[0xde, 0xad]), Some(&[0xbe, 0xef]), Some(1)),
        tag(Some(&long), Some(&long[0..128]), Some(2)),
        tag(Some(&[7]), Some(&[8]), Some(-1)),
        tag(Some(&[7]), Some(&[8]), Some(i32::MIN)),
        tag(Some(&[7]), Some(&[8]), Some(i32::MAX)),
        tag(Some(&[7]), Some(&[8]), Some(300)),
    ]
}

#[test]
fn encode_writes_the_protobuf_fields() {
    for t in samples() {
        assert_eq!(t.encode(), prost_bytes(&t));
    }
}

#[test]
fn decode_reads_back_what_encode_wrote() {
    for t in samples() {
        let bytes = t.encode();
        assert_eq!(ResourceGroupTag::decode(&bytes), Some(t));
    }
}

#[test]
fn decode_passes_over_unknown_fields() {
    let mut buf = Vec::new();
    encoding::int64::encode(4, &-5i64, &mut buf);
    encoding::bytes::encode(1, &vec![1u8, 2], &mut buf);
    encoding::fixed32::encode(9, &7u32, &mut buf);
    encoding::bytes::encode(5, &vec![3u8; 200], &mut buf);
    encoding::fixed64::encode(1000, &7u64, &mut buf);
    encoding::int32::encode(3, &2i32, &mut buf);
    assert_eq!(ResourceGroupTag::decode(&buf), Some(tag(Some(&[1, 2]), None, Some(2))));
}

#[test]
fn later_field_replaces_earlier_one() {
    let mut buf = Vec::new();
    encoding::bytes::encode(1, &vec![1u8, 2], &mut buf);
    encoding::int32::encode(3, &1i32, &mut buf);
    encoding::bytes::encode(1, &vec![5u8], &mut buf);
    encoding::int32::encode(3, &2i32, &mut buf);
    assert_eq!(ResourceGroupTag::decode(&buf), Some(tag(Some(&[5]), None, Some(2))));
}

#[test]
fn decode_refuses_malformed_bytes() {
    // a key without a value
    assert_eq!(ResourceGroupTag::decode(&[0x0a]), None);
    // a length that runs past the end
    assert_eq!(ResourceGroupTag::decode(&[0x0a, 0x02, 0x01]), None);
    // field number zero
    assert_eq!(ResourceGroupTag::decode(&[0x00, 0x00]), None);
    // a digest as a varint
    assert_eq!(ResourceGroupTag::decode(&[0x08, 0x01]), None);
    // a label as a byte string
    assert_eq!(ResourceGroupTag::decode(&[0x1a, 0x00]), None);
    // wire types six and seven
    assert_eq!(ResourceGroupTag::decode(&[0x26, 0x00]), None);
    assert_eq!(ResourceGroupTag::decode(&[0x27, 0x00]), None);
    // a varint that never ends
    assert_eq!(ResourceGroupTag::decode(&[0x18, 0xff, 0xff, 0xff, 0xff, 0xff, 0xff, 0xff, 0xff, 0xff, 0xff, 0x01]), None);
    // a varint of ten bytes that does not fit 64 bits
    assert_eq!(ResourceGroupTag::decode(&[0x18, 0xff, 0xff, 0xff, 0xff, 0xff, 0xff, 0xff, 0xff, 0xff, 0x02]), None);
    // short fixed fields
    assert_eq!(ResourceGroupTag::decode(&[0x25, 0x00, 0x00, 0x00]), None);
    assert_eq!(ResourceGroupTag::decode(&[0x21, 0x00, 0x00, 0x00, 0x00, 0x00, 0x00, 0x00]), None);
    // a key above 32 bits
    let mut buf = Vec::new();
    encoding::encode_varint(1u64 << 35, &mut buf);
    buf.push(0);
    assert_eq!(ResourceGroupTag::decode(&buf), None);
}

#[test]
fn decode_of_largest_varint() {
    let mut buf = Vec::new();
    encoding::encode_key(3, WireType::Varint, &mut buf);
    encoding::encode_varint(u64::MAX, &mut buf);
    assert_eq!(ResourceGroupTag::decode(&buf), Some(tag(None, None, Some(-1))));
    let mut buf = Vec::new();
    encoding::encode_key(3, WireType::Varint, &mut buf);
    encoding::encode_varint(0x1_0000_0005, &mut buf);
    assert_eq!(ResourceGroupTag::decode(&buf), Some(tag(None, None, Some(5))));
}

#[test]
fn classify_tags() {
    assert!(matches!(classify(&tag(Some(&[]), Some(&[]), None).encode()), TagClass::Others));
    assert!(matches!(classify(&tag(Some(&[]), Some(&[1]), Some(1)).encode()), TagClass::Others));
    assert!(matches!(classify(&tag(Some(&[1]), None, None).encode()), TagClass::Digest));
    assert!(matches!(classify(&tag(None, Some(&[1]), None).encode()), TagClass::Unreadable));
    assert!(matches!(classify(&vec![]), TagClass::Unreadable));
    assert!(matches!(classify(&vec![0xff]), TagClass::Unreadable));
}

fn nested_groups(depth: usize) -> Vec<u8> {
    let mut buf = Vec::new();
    for _ in 0..depth {
        encoding::encode_key(7, WireType::StartGroup, &mut buf);
    }
    for _ in 0..depth {
        encoding::encode_key(7, WireType::EndGroup, &mut buf);
    }
    encoding::bytes::encode(1, &vec![9u8], &mut buf);
    buf
}

#[test]
fn decode_passes_over_groups() {
    let mut buf = Vec::new();
    encoding::encode_key(7, WireType::StartGroup, &mut buf);
    encoding::int64::encode(1, &5i64, &mut buf);
    encoding::encode_key(8, WireType::StartGroup, &mut buf);
    encoding::bytes::encode(2, &vec![1u8, 2, 3], &mut buf);
    encoding::encode_key(8, WireType::EndGroup, &mut buf);
    encoding::fixed32::encode(3, &1u32, &mut buf);
    encoding::encode_key(7, WireType::EndGroup, &mut buf);
    encoding::bytes::encode(1, &vec![0xaau8], &mut buf);
    assert_eq!(ResourceGroupTag::decode(&buf), Some(tag(Some(&[0xaa]), None, None)));
}

#[test]
fn decode_refuses_broken_groups() {
    // a group that ends with the key of another field
    let mut buf = Vec::new();
    encoding::encode_key(7, WireType::StartGroup, &mut buf);
    encoding::encode_key(8, WireType::EndGroup, &mut buf);
    assert_eq!(ResourceGroupTag::decode(&buf), None);
    // a group that does not end
    let mut buf = Vec::new();
    encoding::encode_key(7, WireType::StartGroup, &mut buf);
    encoding::int64::encode(1, &5i64, &mut buf);
    assert_eq!(ResourceGroupTag::decode(&buf), None);
    // the end of a group that did not start
    let mut buf = Vec::new();
    encoding::encode_key(7, WireType::EndGroup, &mut buf);
    assert_eq!(ResourceGroupTag::decode(&buf), None);
    // a digest as a group
    let mut buf = Vec::new();
    encoding::encode_key(1, WireType::StartGroup, &mut buf);
    encoding::encode_key(1, WireType::EndGroup, &mut buf);
    assert_eq!(ResourceGroupTag::decode(&buf), None);
}

#[test]
fn decode_limits_the_depth_of_groups() {
    assert_eq!(ResourceGroupTag::decode(&nested_groups(1)), Some(tag(Some(&[9]), None, None)));
    assert_eq!(ResourceGroupTag::decode(&nested_groups(100)), Some(tag(Some(&[9]), None, None)));
    assert_eq!(ResourceGroupTag::decode(&nested_groups(101)), None);
}
