use nippy_jar::cursor::NippyJarCursor;
use nippy_jar::error::NippyJarError;
use nippy_jar::NippyJar;

fn two_columns() -> (Vec<Vec<u8>>, Vec<Vec<u8>>) {
    let col1: Vec<Vec<u8>> = (0u8..100).map(|i| vec![i, i.wrapping_add(1), 7]).collect();
    let col2: Vec<Vec<u8>> = (0u8..100).map(|i| vec![255 - i; 5]).collect();
    (col1, col2)
}

/// A plain jar (no compression, no filter, no perfect hash) reads back
/// every row identically after a freeze/load round trip.
#[test]
fn plain_round_trip() {
    let (col1, col2) = two_columns();
    let mut nippy = NippyJar::new_without_header(2);
    let (data, index) = nippy
        .freeze(vec![col1.clone(), col2.clone()], 100)
        .unwrap();
    let loaded = NippyJar::load(&data, &index).unwrap();
    let mut cursor = NippyJarCursor::new(&loaded, &data).unwrap();
    let mut row_index = 0usize;
    while let Some(row) = cursor.next_row().unwrap() {
        assert_eq!(row.len(), 2);
        assert_eq!((&row[0], &row[1]), (&col1[row_index], &col2[row_index]));
        row_index += 1;
    }
    assert_eq!(row_index, 100);
}

/// Freezing with a column count other than the configured one is refused.
#[test]
fn freeze_column_len_mismatch() {
    let (col1, col2) = two_columns();
    let mut nippy = NippyJar::new_without_header(2);
    assert!(matches!(
        nippy.freeze(vec![col1.clone(), col2.clone(), col2.clone()], 100),
        Err(NippyJarError::ColumnLenMismatch(2, 3))
    ));
    assert!(matches!(
        nippy.freeze(vec![col1], 100),
        Err(NippyJarError::ColumnLenMismatch(2, 1))
    ));
}

/// Freezing with a perfect hash configured but never trained is refused.
#[test]
fn freeze_phf_missing_keys() {
    let (col1, col2) = two_columns();
    let mut nippy = NippyJar::new_without_header(2).with_mphf();
    assert!(matches!(
        nippy.freeze(vec![col1, col2], 100),
        Err(NippyJarError::PHFMissingKeys)
    ));
}

/// A column that runs out of values before the requested row count is
/// fatal and reports the exhausted position.
#[test]
fn freeze_missing_value() {
    let (col1, col2) = two_columns();
    let mut nippy = NippyJar::new_without_header(2);
    assert!(matches!(
        nippy.freeze(vec![col1, col2], 101),
        Err(NippyJarError::UnexpectedMissingValue(100, 0))
    ));
}

/// Empty byte values are preserved exactly.
#[test]
fn empty_values_preserved() {
    let col1: Vec<Vec<u8>> = vec![vec![], vec![1, 2, 3], vec![]];
    let col2: Vec<Vec<u8>> = vec![vec![9], vec![], vec![]];
    let mut nippy = NippyJar::new_without_header(2);
    let (data, index) = nippy.freeze(vec![col1.clone(), col2.clone()], 3).unwrap();
    let loaded = NippyJar::load(&data, &index).unwrap();
    let cursor = NippyJarCursor::new(&loaded, &data).unwrap();
    for i in 0..3 {
        let row = cursor.row_by_number(i).unwrap().unwrap();
        assert_eq!((&row[0], &row[1]), (&col1[i], &col2[i]));
    }
    assert!(matches!(
        cursor.row_by_number(3),
        Err(NippyJarError::RowOutOfBounds(3))
    ));
}

/// The engine refuses to load a data blob of another format version.
#[test]
fn load_foreign_version() {
    let (col1, col2) = two_columns();
    let mut nippy = NippyJar::new_without_header(2);
    let (mut data, index) = nippy.freeze(vec![col1, col2], 100).unwrap();
    data[0] = 2;
    assert!(matches!(
        NippyJar::load(&data, &index),
        Err(NippyJarError::UnsupportedVersion(2))
    ));
}

/// A missing or truncated index blob is fatal.
#[test]
fn load_truncated_index() {
    let (col1, col2) = two_columns();
    let mut nippy = NippyJar::new_without_header(2);
    let (data, index) = nippy.freeze(vec![col1, col2], 100).unwrap();
    let truncated: Vec<u8> = index[..index.len() / 2].to_vec();
    assert!(NippyJar::load(&data, &truncated).is_err());
    let empty: Vec<u8> = Vec::new();
    assert!(NippyJar::load(&data, &empty).is_err());
}

/// The user header blob survives the round trip byte for byte.
#[test]
fn header_round_trip() {
    let (col1, col2) = two_columns();
    let header: Vec<u8> = vec![1, 2, 3, 4, 5];
    let mut nippy = NippyJar::new(2, header.clone());
    let (data, index) = nippy.freeze(vec![col1, col2], 100).unwrap();
    let loaded = NippyJar::load(&data, &index).unwrap();
    assert_eq!(loaded.user_header(), &header);
}

/// Key lookups on a jar with a filter and a perfect hash agree with row
/// number lookups, and unknown keys are rejected.
#[test]
fn key_and_number_agree() {
    let (col1, col2) = two_columns();
    let mut nippy = NippyJar::new_without_header(2)
        .with_cuckoo_filter(100)
        .with_mphf();
    nippy.prepare_index(col1.clone(), col1.len()).unwrap();
    let (data, index) = nippy
        .freeze(vec![col1.clone(), col2.clone()], 100)
        .unwrap();
    let loaded = NippyJar::load(&data, &index).unwrap();
    let cursor = NippyJarCursor::new(&loaded, &data).unwrap();
    for i in 0..100 {
        let by_key = cursor.row_by_key(&col1[i]).unwrap().unwrap();
        let by_num = cursor.row_by_number(i).unwrap().unwrap();
        assert_eq!(by_key, by_num);
    }
    // a key that was never trained is rejected by the filter
    let unknown: Vec<u8> = vec![200, 200, 200, 200];
    assert_eq!(cursor.row_by_key(&unknown).unwrap(), None);
}

/// A degenerate configuration — a filter without a perfect hash, or a
/// trained perfect hash without a filter — is rejected at freeze.
#[test]
fn freeze_degenerate_configuration() {
    let (col1, col2) = two_columns();
    let mut filter_only = NippyJar::new_without_header(2).with_cuckoo_filter(100);
    assert!(matches!(
        filter_only.freeze(vec![col1.clone(), col2.clone()], 100),
        Err(NippyJarError::PHFMissing)
    ));

    let mut phf_only = NippyJar::new_without_header(2).with_mphf();
    phf_only.set_keys(&col1).unwrap();
    assert!(matches!(
        phf_only.freeze(vec![col1.clone(), col2.clone()], 100),
        Err(NippyJarError::FilterMissing)
    ));
}

/// `prepare_index` feeds the keys to the filter and fails once the
/// configured capacity is exhausted.
#[test]
fn prepare_index_filter_capacity() {
    let (col1, _col2) = two_columns();
    let mut nippy = NippyJar::new_without_header(2).with_cuckoo_filter(4).with_mphf();
    assert!(matches!(
        nippy.prepare_index(col1.clone(), col1.len()),
        Err(NippyJarError::FilterMaxCapacity)
    ));
}
