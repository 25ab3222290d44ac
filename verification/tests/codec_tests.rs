use csvdiff::binary::{BinaryEncoder, BinaryDecoder};
use csvdiff::types::{
    DiffResult, DatasetMetadata, ModifiedRow, UnchangedRow, Difference,
};

fn empty_result(mode: &str) -> DiffResult {
    DiffResult {
        added: vec![],
        removed: vec![],
        modified: vec![],
        unchanged: vec![],
        source: DatasetMetadata { headers: vec![], rows: vec![] },
        target: DatasetMetadata { headers: vec![], rows: vec![] },
        key_columns: vec![],
        excluded_columns: vec![],
        mode: mode.to_string(),
    }
}

#[test]
fn test_binary_encoding_decoding() {
    let source_row = vec![
        ("id".to_string(), "1".to_string()),
        ("name".to_string(), "Alice".to_string()),
    ];
    let target_row = vec![
        ("id".to_string(), "1".to_string()),
        ("name".to_string(), "Alicia".to_string()),
    ];

    let modified = vec![ModifiedRow {
        key: "1".to_string(),
        source_row: source_row.clone(),
        target_row: target_row.clone(),
        differences: vec![Difference {
            column: "name".to_string(),
            old_value: "Alice".to_string(),
            new_value: "Alicia".to_string(),
            diff: vec![],
        }],
    }];

    let result = DiffResult {
        added: vec![],
        removed: vec![],
        modified,
        unchanged: vec![],
        source: DatasetMetadata {
            headers: vec!["id".to_string(), "name".to_string()],
            rows: vec![source_row],
        },
        target: DatasetMetadata {
            headers: vec!["id".to_string(), "name".to_string()],
            rows: vec![target_row],
        },
        key_columns: vec!["id".to_string()],
        excluded_columns: vec![],
        mode: "primary-key".to_string(),
    };

    let mut encoder = BinaryEncoder::new();
    encoder.encode_diff_result(&result);
    let encoded = encoder.as_slice();

    let mut decoder = BinaryDecoder::new(encoded);
    let (total, added, removed, modified_count, unchanged) = decoder.decode_header().unwrap();

    assert_eq!(total, 1);
    assert_eq!(added, 0);
    assert_eq!(removed, 0);
    assert_eq!(modified_count, 1);
    assert_eq!(unchanged, 0);
}

#[test]
fn test_encoding_performance() {
    let mut rows = Vec::new();
    for i in 0..1000 {
        let row = vec![
            ("id".to_string(), i.to_string()),
            ("name".to_string(), format!("Name{}", i)),
            ("age".to_string(), (20 + i % 50).to_string()),
        ];
        rows.push(UnchangedRow { key: i.to_string(), row });
    }

    let result = DiffResult {
        added: vec![],
        removed: vec![],
        modified: vec![],
        unchanged: rows,
        source: DatasetMetadata {
            headers: vec!["id".to_string(), "name".to_string(), "age".to_string()],
            rows: vec![],
        },
        target: DatasetMetadata {
            headers: vec!["id".to_string(), "name".to_string(), "age".to_string()],
            rows: vec![],
        },
        key_columns: vec!["id".to_string()],
        excluded_columns: vec![],
        mode: "primary-key".to_string(),
    };

    let start = std::time::Instant::now();
    let mut encoder = BinaryEncoder::new();
    encoder.encode_diff_result(&result);
    let encoded = encoder.as_slice();
    let encode_duration = start.elapsed();

    println!("Binary encoding: {:?}", encode_duration);
    println!("Binary size: {} bytes", encoded.len());

    let mut decoder = BinaryDecoder::new(encoded);
    let (total, _, _, _, unchanged) = decoder.decode_header().unwrap();
    assert_eq!(total, 1000);
    assert_eq!(unchanged, 1000);
}

#[test]
fn empty_result_encodes_to_exact_header() {
    let result = empty_result("primary-key");
    let mut encoder = BinaryEncoder::new();
    encoder.encode_diff_result(&result);
    let encoded = encoder.into_vec();
    assert_eq!(encoded.len(), 20);
    let mut decoder = BinaryDecoder::new(encoded.as_slice());
    let (total, added, removed, modified, unchanged) = decoder.decode_header().unwrap();
    assert_eq!(total, 0);
    assert_eq!(added, 0);
    assert_eq!(removed, 0);
    assert_eq!(modified, 0);
    assert_eq!(unchanged, 0);
}

#[test]
fn short_buffer_is_refused() {
    let buf = [1u8, 2, 3];
    let mut decoder = BinaryDecoder::new(&buf);
    assert!(decoder.decode_header().is_none());
    assert!(decoder.read_u32().is_none());
    let mut one = BinaryDecoder::new(&buf);
    assert_eq!(one.read_u8(), Some(1));
}

#[test]
fn encoded_strings_read_back() {
    let mut encoder = BinaryEncoder::new();
    let result = DiffResult {
        added: vec![],
        removed: vec![],
        modified: vec![],
        unchanged: vec![UnchangedRow {
            key: "row one".to_string(),
            row: vec![("greeting".to_string(), "hello, world".to_string())],
        }],
        source: DatasetMetadata { headers: vec![], rows: vec![] },
        target: DatasetMetadata { headers: vec![], rows: vec![] },
        key_columns: vec![],
        excluded_columns: vec![],
        mode: "primary-key".to_string(),
    };
    encoder.encode_diff_result(&result);
    let encoded = encoder.into_vec();

    let mut decoder = BinaryDecoder::new(encoded.as_slice());
    decoder.decode_header().unwrap();
    assert_eq!(decoder.read_u8(), Some(4));
    assert_eq!(decoder.read_string().unwrap(), "row one");
    let fields = decoder.read_row_data().unwrap();
    assert_eq!(fields.len(), 1);
    assert_eq!(fields[0].0, "greeting");
    assert_eq!(fields[0].1, "hello, world");
}
