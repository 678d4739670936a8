use nippy_jar::compression::Compressors;
use nippy_jar::cursor::NippyJarCursor;
use nippy_jar::error::NippyJarError;
use nippy_jar::NippyJar;
use rand::rngs::SmallRng;
use rand::seq::SliceRandom;
use rand::{RngCore, SeedableRng};
use std::collections::HashSet;

fn test_data(seed: Option<u64>) -> (Vec<Vec<u8>>, Vec<Vec<u8>>) {
    let value_length = 32;
    let num_rows = 100;

    let mut buf: Vec<u8> = vec![0; value_length];
    let mut rng = SmallRng::seed_from_u64(seed.unwrap_or(0xa1));

    let mut gen = || -> Vec<Vec<u8>> {
        (0..num_rows)
            .map(|_| {
                rng.fill_bytes(&mut buf[..]);
                buf.clone()
            })
            .collect()
    };

    (gen(), gen())
}

fn check_phf(mut nippy: NippyJar, col1: &Vec<Vec<u8>>, col2: &Vec<Vec<u8>>, num_rows: u64) {
    assert!(matches!(
        nippy.get_index(&col1[0]),
        Err(NippyJarError::PHFMissingKeys)
    ));
    assert!(nippy.set_keys(col1).is_ok());

    let collect_indexes = |n: &NippyJar| -> Vec<u64> {
        col1.iter()
            .map(|value| n.get_index(value).unwrap().unwrap())
            .collect()
    };

    // Ensure all indexes are unique
    let indexes = collect_indexes(&nippy);
    assert_eq!(indexes.iter().collect::<HashSet<_>>().len(), indexes.len());

    // Ensure reproducibility
    assert!(nippy.set_keys(col1).is_ok());
    assert_eq!(indexes, collect_indexes(&nippy));

    // Ensure that a loaded jar provides the same function outputs
    nippy.prepare_index(col1.clone(), col1.len()).unwrap();
    let (data, index) = nippy
        .freeze(vec![col1.clone(), col2.clone()], num_rows)
        .unwrap();
    let loaded_nippy = NippyJar::load(&data, &index).unwrap();
    assert_eq!(indexes, collect_indexes(&loaded_nippy));
}

#[test]
fn test_phf() {
    let (col1, col2) = test_data(None);
    let num_columns = 2usize;
    let num_rows = col1.len() as u64;

    let nippy = NippyJar::new_without_header(num_columns);
    let mut nippy = nippy;
    assert!(matches!(
        nippy.set_keys(&col1),
        Err(NippyJarError::PHFMissing)
    ));

    let with_fingerprint = nippy.with_cuckoo_filter(col1.len()).with_mphf();
    check_phf(with_fingerprint, &col1, &col2, num_rows);

    let with_go = NippyJar::new_without_header(num_columns)
        .with_cuckoo_filter(col1.len())
        .with_gomphf();
    check_phf(with_go, &col1, &col2, num_rows);
}

#[test]
fn test_filter() {
    let (col1, col2) = test_data(Some(1));
    let num_columns = 2usize;
    let num_rows = col1.len() as u64;

    let mut nippy = NippyJar::new_without_header(num_columns);

    assert!(matches!(
        nippy.add(&col1[0]),
        Err(NippyJarError::FilterMissing)
    ));

    nippy = nippy.with_cuckoo_filter(4);

    // Add col1[0]
    assert!(!nippy.contains(&col1[0]).unwrap());
    assert!(nippy.add(&col1[0]).is_ok());
    assert!(nippy.contains(&col1[0]).unwrap());

    // Add col1[1]
    assert!(!nippy.contains(&col1[1]).unwrap());
    assert!(nippy.add(&col1[1]).is_ok());
    assert!(nippy.contains(&col1[1]).unwrap());

    // Add more keys until max_capacity
    assert!(nippy.add(&col1[2]).is_ok());
    assert!(nippy.add(&col1[3]).is_ok());
    assert!(matches!(
        nippy.add(&col1[4]),
        Err(NippyJarError::FilterMaxCapacity)
    ));

    // the filter alone is a degenerate configuration: freeze demands the
    // perfect hash beside it
    assert!(matches!(
        nippy.freeze(vec![col1.clone(), col2.clone()], num_rows),
        Err(NippyJarError::PHFMissing)
    ));
    nippy = nippy.with_mphf();
    nippy.set_keys(&col1).unwrap();

    let (data, index) = nippy
        .freeze(vec![col1.clone(), col2.clone()], num_rows)
        .unwrap();
    let loaded_nippy = NippyJar::load(&data, &index).unwrap();

    // the loaded configuration equals the frozen one, field by field
    assert_eq!(loaded_nippy.user_header(), nippy.user_header());
    assert_eq!(loaded_nippy.columns, nippy.columns);
    assert_eq!(
        loaded_nippy.compressor.is_none(),
        nippy.compressor.is_none()
    );
    assert_eq!(loaded_nippy.uses_filters(), nippy.uses_filters());
    for key in col1.iter().take(5) {
        assert_eq!(
            loaded_nippy.get_index(key).unwrap(),
            nippy.get_index(key).unwrap()
        );
        assert_eq!(
            loaded_nippy.contains(key).unwrap(),
            nippy.contains(key).unwrap()
        );
    }

    assert!(loaded_nippy.contains(&col1[0]).unwrap());
    assert!(loaded_nippy.contains(&col1[1]).unwrap());
    assert!(loaded_nippy.contains(&col1[2]).unwrap());
    assert!(loaded_nippy.contains(&col1[3]).unwrap());
    assert!(!loaded_nippy.contains(&col1[4]).unwrap());
}

#[test]
fn test_zstd_with_dictionaries() {
    let (col1, col2) = test_data(None);
    let num_rows = col1.len() as u64;
    let num_columns = 2usize;

    let nippy = NippyJar::new_without_header(num_columns);
    assert!(nippy.compressor.is_none());

    let mut nippy = NippyJar::new_without_header(num_columns).with_zstd(true, 5000);
    assert!(nippy.compressor.is_some());

    // If zstd is enabled, do not write to the file unless the column
    // dictionaries have been calculated.
    assert!(matches!(
        nippy.freeze(vec![col1.clone(), col2.clone()], num_rows),
        Err(NippyJarError::CompressorNotReady)
    ));

    // Make sure the number of training columns matches the configured ones.
    assert!(matches!(
        nippy.prepare_compression(vec![col1.clone(), col2.clone(), col2.clone()]),
        Err(NippyJarError::ColumnLenMismatch(2, 3))
    ));

    nippy
        .prepare_compression(vec![col1.clone(), col2.clone()])
        .unwrap();

    if let Some(Compressors::Zstd(zstd)) = &nippy.compressor {
        assert!(zstd.use_dict);
        assert_eq!(
            zstd.raw_dictionaries.as_ref().map(|dicts| dicts.len()),
            Some(num_columns)
        );
    } else {
        panic!("Expected a zstd compressor");
    }

    let (data, index) = nippy
        .freeze(vec![col1.clone(), col2.clone()], num_rows)
        .unwrap();
    let loaded_nippy = NippyJar::load(&data, &index).unwrap();

    let mut cursor = NippyJarCursor::new(&loaded_nippy, &data).unwrap();

    // Iterate over compressed values and compare
    let mut row_index = 0usize;
    while let Some(row) = cursor.next_row().unwrap() {
        assert_eq!((&row[0], &row[1]), (&col1[row_index], &col2[row_index]));
        row_index += 1;
    }
    assert_eq!(row_index, col1.len());
}

#[test]
fn test_zstd_no_dictionaries() {
    let (col1, col2) = test_data(None);
    let num_rows = col1.len() as u64;
    let num_columns = 2usize;

    let mut nippy = NippyJar::new_without_header(num_columns).with_zstd(false, 5000);
    assert!(nippy.compressor.is_some());

    let (data, index) = nippy
        .freeze(vec![col1.clone(), col2.clone()], num_rows)
        .unwrap();

    // The compressed blob differs from the raw layout a plain jar writes.
    let mut plain = NippyJar::new_without_header(num_columns);
    let (plain_data, _) = plain
        .freeze(vec![col1.clone(), col2.clone()], num_rows)
        .unwrap();
    assert_ne!(data, plain_data);

    let loaded_nippy = NippyJar::load(&data, &index).unwrap();
    if let Some(Compressors::Zstd(zstd)) = &loaded_nippy.compressor {
        assert!(!zstd.use_dict);
    } else {
        panic!("Expected a zstd compressor");
    }

    let mut cursor = NippyJarCursor::new(&loaded_nippy, &data).unwrap();

    let mut row_index = 0usize;
    while let Some(row) = cursor.next_row().unwrap() {
        assert_eq!((&row[0], &row[1]), (&col1[row_index], &col2[row_index]));
        row_index += 1;
    }
    assert_eq!(row_index, col1.len());
}

/// Everything enabled: compression, filter, perfect hash and the offset
/// index, plus a custom user header.
#[test]
fn test_full_nippy_jar() {
    let (col1, col2) = test_data(None);
    let num_rows = col1.len() as u64;
    let num_columns = 2usize;
    let data_cols = vec![col1.clone(), col2.clone()];

    let block_start: u64 = 500;

    let mut nippy = NippyJar::new(num_columns, block_start.to_le_bytes().to_vec())
        .with_zstd(true, 5000)
        .with_cuckoo_filter(col1.len())
        .with_mphf();

    nippy.prepare_compression(data_cols.clone()).unwrap();
    nippy.prepare_index(col1.clone(), col1.len()).unwrap();
    let (data, index) = nippy
        .freeze(vec![col1.clone(), col2.clone()], num_rows)
        .unwrap();

    let loaded_nippy = NippyJar::load(&data, &index).unwrap();

    assert!(loaded_nippy.compressor.is_some());
    assert!(loaded_nippy.uses_filters());
    assert_eq!(loaded_nippy.user_header().as_slice(), &block_start.to_le_bytes());

    let mut cursor = NippyJarCursor::new(&loaded_nippy, &data).unwrap();

    // Iterate over compressed values and compare
    let mut row_num = 0usize;
    while let Some(row) = cursor.next_row().unwrap() {
        assert_eq!(
            (&row[0], &row[1]),
            (&data_cols[0][row_num], &data_cols[1][row_num])
        );
        row_num += 1;
    }

    // Shuffled for chaos.
    let mut entries: Vec<(usize, (&Vec<u8>, &Vec<u8>))> = col1
        .iter()
        .zip(col2.iter())
        .enumerate()
        .map(|(i, p)| (i, p))
        .collect();
    entries.shuffle(&mut SmallRng::seed_from_u64(7));

    for (row_num, (v0, v1)) in entries {
        // Simulates `by_hash` queries by iterating col1 values, which were
        // used to create the inner index.
        let row_by_value = cursor.row_by_key(v0).unwrap().unwrap();
        assert_eq!((&row_by_value[0], &row_by_value[1]), (v0, v1));

        // Simulates `by_number` queries
        let row_by_num = cursor.row_by_number(row_num).unwrap().unwrap();
        assert_eq!(row_by_value, row_by_num);
    }
}

#[test]
fn test_selectable_column_values() {
    let (col1, col2) = test_data(None);
    let num_rows = col1.len() as u64;
    let num_columns = 2usize;
    let data_cols = vec![col1.clone(), col2.clone()];

    let mut nippy = NippyJar::new_without_header(num_columns)
        .with_zstd(true, 5000)
        .with_cuckoo_filter(col1.len())
        .with_mphf();

    nippy.prepare_compression(data_cols).unwrap();
    nippy.prepare_index(col1.clone(), col1.len()).unwrap();
    let (data, index) = nippy
        .freeze(vec![col1.clone(), col2.clone()], num_rows)
        .unwrap();

    let loaded_nippy = NippyJar::load(&data, &index).unwrap();
    let cursor = NippyJarCursor::new(&loaded_nippy, &data).unwrap();

    // Shuffled for chaos.
    let mut entries: Vec<(usize, (&Vec<u8>, &Vec<u8>))> = col1
        .iter()
        .zip(col2.iter())
        .enumerate()
        .map(|(i, p)| (i, p))
        .collect();
    entries.shuffle(&mut SmallRng::seed_from_u64(23));

    const BLOCKS_FULL_MASK: usize = 0b11;
    const BLOCKS_COLUMNS: usize = 2;

    // Read both columns
    for (row_num, (v0, v1)) in &entries {
        let row_by_value = cursor
            .row_by_key_with_cols(v0, BLOCKS_FULL_MASK, BLOCKS_COLUMNS)
            .unwrap()
            .unwrap();
        assert_eq!((&row_by_value[0], &row_by_value[1]), (*v0, *v1));

        let row_by_num = cursor
            .row_by_number_with_cols(*row_num, BLOCKS_FULL_MASK, BLOCKS_COLUMNS)
            .unwrap()
            .unwrap();
        assert_eq!(row_by_value, row_by_num);
    }

    // Read first column only
    const BLOCKS_BLOCK_MASK: usize = 0b01;
    for (row_num, (v0, _)) in &entries {
        let row_by_value = cursor
            .row_by_key_with_cols(v0, BLOCKS_BLOCK_MASK, BLOCKS_COLUMNS)
            .unwrap()
            .unwrap();
        assert_eq!(row_by_value.len(), 1);
        assert_eq!(&row_by_value[0], *v0);

        let row_by_num = cursor
            .row_by_number_with_cols(*row_num, BLOCKS_BLOCK_MASK, BLOCKS_COLUMNS)
            .unwrap()
            .unwrap();
        assert_eq!(row_by_num.len(), 1);
        assert_eq!(row_by_value, row_by_num);
    }

    // Read second column only
    const BLOCKS_WITHDRAWAL_MASK: usize = 0b10;
    for (row_num, (v0, v1)) in &entries {
        let row_by_value = cursor
            .row_by_key_with_cols(v0, BLOCKS_WITHDRAWAL_MASK, BLOCKS_COLUMNS)
            .unwrap()
            .unwrap();
        assert_eq!(row_by_value.len(), 1);
        assert_eq!(&row_by_value[0], *v1);

        let row_by_num = cursor
            .row_by_number_with_cols(*row_num, BLOCKS_WITHDRAWAL_MASK, BLOCKS_COLUMNS)
            .unwrap()
            .unwrap();
        assert_eq!(row_by_num.len(), 1);
        assert_eq!(row_by_value, row_by_num);
    }

    // Read nothing
    const BLOCKS_EMPTY_MASK: usize = 0b00;
    for (row_num, (v0, _)) in &entries {
        assert!(cursor
            .row_by_key_with_cols(v0, BLOCKS_EMPTY_MASK, BLOCKS_COLUMNS)
            .unwrap()
            .unwrap()
            .is_empty());

        assert!(cursor
            .row_by_number_with_cols(*row_num, BLOCKS_EMPTY_MASK, BLOCKS_COLUMNS)
            .unwrap()
            .unwrap()
            .is_empty());
    }
}
