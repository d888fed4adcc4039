use thunder::container::{Field, Record, StorageMode};
use thunder::container_decode::{decode_record, decode_root, DecodeError};
use thunder::container_encode::{encode_root, record_len, EncodeError};

fn same_field(a: &Field, b: &Field) -> bool {
    match (a, b) {
        (Field::Inline(x), Field::Inline(y)) => x == y,
        (Field::OffsetBytes(x), Field::OffsetBytes(y)) => x == y,
        (Field::OffsetTable(x), Field::OffsetTable(y)) => same_record(x, y),
        (Field::VectorOfOffsets(x), Field::VectorOfOffsets(y)) => {
            x.len() == y.len() && x.iter().zip(y.iter()).all(|(p, q)| same_record(p, q))
        }
        (
            Field::VectorOfValues { stride: s, bytes: x },
            Field::VectorOfValues { stride: t, bytes: y },
        ) => s == t && x == y,
        _ => false,
    }
}

fn same_record(a: &Record, b: &Record) -> bool {
    a.fields.len() == b.fields.len()
        && a.fields.iter().zip(b.fields.iter()).all(|(p, q)| same_field(p, q))
}

fn shader(name: &str, kind: u8, code: &[u8]) -> Record {
    Record {
        fields: vec![
            Field::OffsetBytes(name.as_bytes().to_vec()),
            Field::Inline(vec![kind]),
            Field::VectorOfValues { stride: 1, bytes: code.to_vec() },
        ],
    }
}

fn sample() -> Record {
    Record {
        fields: vec![
            Field::Inline(vec![1, 2, 3, 4]),
            Field::OffsetBytes(b"Level_One".to_vec()),
            Field::OffsetTable(shader("inner", 7, &[9, 9])),
            Field::VectorOfOffsets(vec![
                shader("a-VS", 0, &[1, 2, 3]),
                shader("b-PS", 1, &[]),
                Record { fields: vec![] },
            ]),
            Field::VectorOfValues { stride: 4, bytes: vec![0, 0, 0, 1, 0, 0, 0, 2] },
        ],
    }
}

#[test]
fn every_storage_mode_survives_a_round_trip() {
    let record = sample();
    let bytes = encode_root(b"TLVL", &record).unwrap();
    let back = decode_root(b"TLVL", &bytes).unwrap();
    assert!(same_record(&record, &back));
}

#[test]
fn the_file_starts_with_the_tag() {
    let bytes = encode_root(b"TGDB", &Record { fields: vec![] }).unwrap();
    assert_eq!(&bytes[0..4], b"TGDB");
}

#[test]
fn an_empty_record_is_tag_count_and_table_length() {
    let bytes = encode_root(b"TADB", &Record { fields: vec![] }).unwrap();
    assert_eq!(bytes, vec![b'T', b'A', b'D', b'B', 0, 0, 0, 0, 4, 0, 0, 0]);
}

#[test]
fn an_inline_field_is_copied_into_the_table() {
    let record = Record { fields: vec![Field::Inline(vec![0xAA, 0xBB])] };
    let bytes = encode_root(b"TEST", &record).unwrap();
    let expected: Vec<u8> = vec![
        b'T', b'E', b'S', b'T', // tag
        1, 0, 0, 0, // one field
        0, 0, 0, 0, // inline
        2, 0, 0, 0, // two bytes
        0xAA, 0xBB, // the bytes
        14, 0, 0, 0, // the table has fourteen bytes
    ];
    assert_eq!(bytes, expected);
}

#[test]
fn a_payload_is_written_before_the_table_that_points_to_it() {
    let record = Record { fields: vec![Field::OffsetBytes(vec![7, 8, 9])] };
    let bytes = encode_root(b"TEST", &record).unwrap();
    let expected: Vec<u8> = vec![
        b'T', b'E', b'S', b'T', // tag
        7, 8, 9, // the payload
        1, 0, 0, 0, // one field
        1, 0, 0, 0, // offset to bytes
        3, 0, 0, 0, // three bytes back from the table
        3, 0, 0, 0, // three bytes long
        16, 0, 0, 0, // the table has sixteen bytes
    ];
    assert_eq!(bytes, expected);
}

#[test]
fn a_nested_table_lies_before_its_parent() {
    let inner = Record { fields: vec![Field::Inline(vec![5])] };
    let record = Record { fields: vec![Field::OffsetTable(inner)] };
    let bytes = encode_root(b"TEST", &record).unwrap();
    let expected: Vec<u8> = vec![
        b'T', b'E', b'S', b'T', // tag
        1, 0, 0, 0, 0, 0, 0, 0, 1, 0, 0, 0, 5, // the nested table, thirteen bytes
        1, 0, 0, 0, // one field
        2, 0, 0, 0, // offset to table
        13, 0, 0, 0, // thirteen bytes back
        12, 0, 0, 0, // the root table has twelve bytes
    ];
    assert_eq!(bytes, expected);
    let back = decode_root(b"TEST", &bytes).unwrap();
    assert!(same_record(&record, &back));
}

#[test]
fn a_vector_of_values_keeps_its_stride() {
    let record = Record {
        fields: vec![Field::VectorOfValues { stride: 16, bytes: vec![0; 32] }],
    };
    let bytes = encode_root(b"TGDB", &record).unwrap();
    match &decode_root(b"TGDB", &bytes).unwrap().fields[0] {
        Field::VectorOfValues { stride, bytes } => {
            assert_eq!(*stride, 16);
            assert_eq!(bytes.len(), 32);
        }
        _ => panic!("the field changed its mode"),
    }
}

#[test]
fn the_length_of_a_record_is_counted_before_it_is_written() {
    let record = sample();
    let bytes = encode_root(b"TLVL", &record).unwrap();
    assert_eq!(record_len(&record) as usize + 8, bytes.len());
}

#[test]
fn a_tag_that_is_not_ascii_is_refused() {
    let refused = encode_root(&[b'T', 0xC3, b'D', b'B'], &Record { fields: vec![] });
    assert!(matches!(refused, Err(EncodeError::InvalidTag)));
}

#[test]
fn another_tag_is_not_accepted() {
    let bytes = encode_root(b"TGDB", &sample()).unwrap();
    assert!(matches!(decode_root(b"TTDB", &bytes), Err(DecodeError::WrongTag)));
}

#[test]
fn a_short_file_has_no_root() {
    assert!(matches!(decode_root(b"TGDB", b"TGDB"), Err(DecodeError::NoRoot)));
    assert!(matches!(decode_root(b"TGDB", &[]), Err(DecodeError::NoRoot)));
}

#[test]
fn an_offset_that_points_forward_is_malformed() {
    // One field, an offset to a table, zero bytes back: the table would name itself.
    let bytes: Vec<u8> = vec![
        b'T', b'E', b'S', b'T', 1, 0, 0, 0, 2, 0, 0, 0, 0, 0, 0, 0, 12, 0, 0, 0,
    ];
    assert!(matches!(decode_root(b"TEST", &bytes), Err(DecodeError::Malformed)));
}

#[test]
fn an_unknown_slot_kind_is_malformed() {
    let bytes: Vec<u8> = vec![
        b'T', b'E', b'S', b'T', 1, 0, 0, 0, 9, 0, 0, 0, 0, 0, 0, 0, 12, 0, 0, 0,
    ];
    assert!(matches!(decode_root(b"TEST", &bytes), Err(DecodeError::Malformed)));
}

#[test]
fn a_truncated_table_is_malformed() {
    let mut bytes = encode_root(b"TLVL", &sample()).unwrap();
    let len = bytes.len();
    // Claim one field more than the table holds.
    let table_len = u32::from_le_bytes([bytes[len - 4], bytes[len - 3], bytes[len - 2], bytes[len - 1]]);
    let at = len - 4 - table_len as usize;
    bytes[at] += 1;
    assert!(matches!(decode_root(b"TLVL", &bytes), Err(DecodeError::Malformed)));
}

#[test]
fn a_record_is_read_wherever_it_stands() {
    let record = shader("moved", 3, &[1, 2, 3, 4]);
    let file = encode_root(b"TEST", &record).unwrap();
    let mut shifted = vec![0xEE; 10];
    shifted.extend_from_slice(&file);
    let table_len = 4 + 12 + 9 + 16;
    let at = shifted.len() - 4 - table_len;
    let back = decode_record(&shifted, at).unwrap();
    assert!(same_record(&record, &back));
}

#[test]
fn fields_report_their_storage_mode() {
    let record = sample();
    let modes: Vec<StorageMode> = record.fields.iter().map(|f| f.mode()).collect();
    assert_eq!(
        modes,
        vec![
            StorageMode::Direct,
            StorageMode::Offset,
            StorageMode::Offset,
            StorageMode::VectorOffsets,
            StorageMode::VectorDirect,
        ]
    );
}
