use ceph_wire::containers::CephMap;
use ceph_wire::primitives::{
    encode_to_vec, CephPair, CephTriple, EncodeError, EntityName, Serialize, Utime,
};

fn encode<T: Serialize + ?Sized>(v: &T) -> Vec<u8> {
    encode_to_vec(v).unwrap()
}

#[test]
fn u8_scalar_is_one_raw_byte() {
    assert_eq!(encode(&0x7fu8), vec![0x7f]);
}

#[test]
fn u32_scalar_is_four_little_endian_bytes() {
    assert_eq!(encode(&0xdead_beefu32), vec![0xef, 0xbe, 0xad, 0xde]);
}

#[test]
fn u64_scalar_is_eight_little_endian_bytes() {
    assert_eq!(
        encode(&0x0102_0304_0506_0708u64),
        vec![0x08, 0x07, 0x06, 0x05, 0x04, 0x03, 0x02, 0x01]
    );
}

#[test]
fn timestamp_encodes_seconds_then_nanoseconds() {
    let t = Utime {
        tv_sec: 1,
        tv_nsec: 500,
    };
    assert_eq!(
        encode(&t),
        vec![0x01, 0x00, 0x00, 0x00, 0xf4, 0x01, 0x00, 0x00]
    );
}

#[test]
fn entity_name_encodes_tag_then_id() {
    let e = EntityName {
        ceph_type: 8,
        num: 0x0102_0304_0506_0708,
    };
    assert_eq!(
        encode(&e),
        vec![0x08, 0x08, 0x07, 0x06, 0x05, 0x04, 0x03, 0x02, 0x01]
    );
}

#[test]
fn text_ab_is_length_prefix_then_utf8_bytes() {
    assert_eq!(encode("ab"), vec![0x02, 0x00, 0x00, 0x00, 0x61, 0x62]);
}

#[test]
fn owned_text_encodes_like_borrowed_text() {
    let s = String::from("ab");
    assert_eq!(encode(&s), encode("ab"));
}

#[test]
fn empty_text_is_the_zero_count_alone() {
    assert_eq!(encode(""), vec![0x00, 0x00, 0x00, 0x00]);
}

#[test]
fn text_length_prefix_counts_bytes_not_characters() {
    // One character, two UTF-8 bytes.
    assert_eq!(
        encode("\u{e9}"),
        vec![0x02, 0x00, 0x00, 0x00, 0xc3, 0xa9]
    );
}

#[test]
fn sequence_of_two_u8_values() {
    let v: Vec<u8> = vec![7, 9];
    assert_eq!(encode(&v), vec![0x02, 0x00, 0x00, 0x00, 0x07, 0x09]);
}

#[test]
fn empty_sequence_is_the_zero_count_alone() {
    let v: Vec<u32> = Vec::new();
    assert_eq!(encode(&v), vec![0x00, 0x00, 0x00, 0x00]);
}

#[test]
fn sequence_elements_follow_in_iteration_order() {
    let v: Vec<u32> = vec![1, 2];
    assert_eq!(
        encode(&v),
        vec![0x02, 0x00, 0x00, 0x00, 0x01, 0x00, 0x00, 0x00, 0x02, 0x00, 0x00, 0x00]
    );
}

#[test]
fn optional_none_is_the_single_zero_byte() {
    assert_eq!(encode(&Option::<u32>::None), vec![0x00]);
    assert_eq!(encode(&Option::<String>::None), vec![0x00]);
}

#[test]
fn optional_some_is_flag_then_value() {
    assert_eq!(encode(&Some(7u8)), vec![0x01, 0x07]);
    assert_eq!(
        encode(&Some(0x0102_0304u32)),
        vec![0x01, 0x04, 0x03, 0x02, 0x01]
    );
}

#[test]
fn pair_concatenates_both_fields() {
    let p = CephPair { a: 1u8, b: 0x0102_0304u32 };
    assert_eq!(encode(&p), vec![0x01, 0x04, 0x03, 0x02, 0x01]);
}

#[test]
fn triple_concatenates_all_three_fields() {
    let t = CephTriple {
        a: 1u8,
        b: 2u8,
        c: 3u8,
    };
    assert_eq!(encode(&t), vec![0x01, 0x02, 0x03]);
}

#[test]
fn nested_pair_equals_manual_concatenation() {
    let p = CephPair {
        a: 0xaau8,
        b: CephPair {
            a: 0x0102_0304u32,
            b: 0x05u8,
        },
    };
    let mut manual = Vec::new();
    manual.extend(encode(&0xaau8));
    manual.extend(encode(&0x0102_0304u32));
    manual.extend(encode(&0x05u8));
    assert_eq!(encode(&p), manual);
}

#[test]
fn mapping_encodes_count_then_key_value_entries() {
    let m = CephMap {
        entries: vec![(1u8, 0x0102_0304u32), (2u8, 0x0506_0708u32)],
    };
    assert_eq!(
        encode(&m),
        vec![
            0x02, 0x00, 0x00, 0x00, // entry count
            0x01, 0x04, 0x03, 0x02, 0x01, // first key, first value
            0x02, 0x08, 0x07, 0x06, 0x05, // second key, second value
        ]
    );
}

#[test]
fn empty_mapping_is_the_zero_count_alone() {
    let m: CephMap<u8, u8> = CephMap { entries: Vec::new() };
    assert_eq!(encode(&m), vec![0x00, 0x00, 0x00, 0x00]);
}

#[test]
fn serialize_appends_without_touching_earlier_bytes() {
    let mut buff = vec![0xaau8, 0xbb];
    7u8.serialize(&mut buff).unwrap();
    assert_eq!(buff, vec![0xaa, 0xbb, 0x07]);
}

#[test]
fn deterministic_byte_identical_reencoding() {
    let v: Vec<Option<u32>> = vec![Some(3), None, Some(0xffff_ffff)];
    assert_eq!(encode(&v), encode(&v));
}

#[test]
fn oversized_sequence_is_rejected_not_truncated() {
    let v: Vec<u8> = vec![0; u32::MAX as usize + 1];
    let mut buff: Vec<u8> = Vec::new();
    assert_eq!(v.serialize(&mut buff), Err(EncodeError::Oversized));
}
