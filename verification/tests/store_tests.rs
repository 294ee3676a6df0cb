use coat_check::engine::StoreError;
use coat_check::store::size;
use coat_check::store::Store;

#[test]
fn first_read_key_fails() {
    let store = Store::new();

    let result = store.read_key(b"meh");
    // the backing file does not exist, so read() should fail
    assert!(result.is_err());
    assert_eq!(result, Err(StoreError::NotFound))
}

#[test]
fn write_then_read_key_works() {
    let mut store = Store::new();

    // write() to a non-existent file should succeed
    let test_key = b"boo";
    let expected = b"some value goes here";
    let write_result = store.write_key_val(test_key, expected);
    assert!(write_result.is_ok());

    // and reading back the just-written key should succeed and match
    let read_result = store.read_key(test_key);
    match read_result {
        Ok(bytes) => match bytes {
            Some(value_vector) => assert_eq!(value_vector, expected.to_vec()),
            None => assert!(false),
        },
        Err(_) => assert!(false),
    }
}

#[test]
fn write_then_delete_key_works() {
    let mut store = Store::new();

    // write() to a non-existent file should succeed
    let test_key = b"boo";
    let expected = b"some value goes here";
    let write_result = store.write_key_val(test_key, expected);
    assert!(write_result.is_ok());

    // attempt to delete the just-written key
    let delete_result = store.delete_key(test_key);
    match delete_result {
        Ok(bytes) => match bytes {
            // a successful delete returns the corresponding value, for reference
            Some(value_vector) => assert_eq!(value_vector, expected.to_vec()),
            None => assert!(false),
        },
        Err(_) => assert!(false),
    }

    // reading back the just-deleted key should find nothing
    let read_result = store.read_key(test_key);
    match read_result {
        Ok(bytes) => match bytes {
            Some(_) => assert!(false),
            None => assert!(true),
        },
        Err(_) => assert!(false),
    }
}

#[test]
fn write_then_delete_key_multiple_time_produces_last_value() {
    let mut store = Store::new();

    // same key but different values
    let key = b"katakana";
    let vals = vec!["あ", "い", "う", "え", "お"];
    let cases = vals.len();

    for i in 0..cases {
        // write the new value for the key
        let write_result = store.write_key_val(key, vals.get(i).unwrap().as_bytes());
        assert!(write_result.is_ok());

        // reading back the just-written key should work
        let read_result = store.read_key(key);
        match read_result {
            Ok(bytes) => match bytes {
                Some(_) => assert!(true),
                None => assert!(false),
            },
            Err(_) => assert!(false),
        }

        if i != cases - 1 {
            // delete the key before attempting to write the next value
            let delete_result = store.delete_key(key);
            assert!(delete_result.is_ok());
        }
    }

    // the final read of the key should see the last value
    let read_result = store.read_key(key);
    let expected = vals.last().unwrap().as_bytes();
    match read_result {
        Ok(bytes) => match bytes {
            Some(value_vector) => assert_eq!(value_vector, expected.to_vec()),
            None => assert!(false),
        },
        Err(_) => assert!(false),
    }
}

#[test]
fn duplicate_key_writes_upsert() {
    let mut store = Store::new();

    // write() to a non-existent file should succeed
    let test_key = b"the key";
    let first_val = b"this is the first value for the key";
    let first_write_result = store.write_key_val(test_key, first_val);
    assert!(first_write_result.is_ok());

    let second_val = b"a different value for the same key";
    let second_write_result = store.write_key_val(test_key, second_val);
    assert!(second_write_result.is_ok());
    match second_write_result {
        Ok(bytes) => assert_ne!(bytes, 0), // i.e., it did write the new value
        Err(_) => assert!(false),
    }

    // and reading back the just-written key should match the second value
    let read_result = store.read_key(test_key);
    match read_result {
        Ok(bytes) => match bytes {
            Some(value_vector) => assert_eq!(value_vector, second_val.to_vec()),
            None => assert!(false),
        },
        Err(_) => assert!(false),
    }

    // but attempting to rewrite the same key-value pair should do nothing
    let second_write_result_redux = store.write_key_val(test_key, second_val);
    assert!(second_write_result_redux.is_ok());
    match second_write_result_redux {
        // i.e., it did not write the new value, since it was the same as before
        Ok(bytes) => assert_eq!(bytes, 0),
        Err(_) => assert!(false),
    }
}

#[test]
fn compaction_works() {
    let mut store = Store::new();

    let keys = vec!["1", "2", "3", "4", "5", "6", "7", "8", "9", "10"];
    let vals = vec![
        "uno", "dos", "tres", "cuatro", "cinco", "seis", "siete", "ocho", "nueve", "diez",
    ];

    let cases = keys.len();
    for i in 0..cases {
        let k = keys.get(i).unwrap().as_bytes();
        let v = vals.get(i).unwrap().as_bytes();
        match store.write_key_val(k, v) {
            Ok(bytes) => assert_ne!(bytes, 0), // as brand-new writes, these should all be > 0
            Err(_) => assert!(false),
        }
        if i % 2 == 0 {
            // delete half the keys, so that the image needs compaction
            match store.delete_key(k) {
                Ok(bytes) => match bytes {
                    // a successful delete returns the corresponding value
                    Some(value_vector) => assert_eq!(value_vector, v.to_vec()),
                    None => assert!(false),
                },
                Err(_) => assert!(false),
            }
        }
    }

    // compact the image
    match store.compact() {
        Ok(bytes) => match bytes {
            Some(_) => assert!(false),
            None => assert!(true),
        },
        Err(_) => assert!(false),
    }

    // exactly the five live records survive
    assert_eq!(store.record_count(), Ok(5));

    // iterate through keys/vals and confirm only the undeleted ones exist
    for i in 0..cases {
        let k = keys.get(i).unwrap().as_bytes();
        let read_result = store.read_key(k);
        assert!(read_result.is_ok());
        if i % 2 == 0 {
            // expect these to be missing
            match read_result {
                Ok(bytes) => match bytes {
                    Some(_) => assert!(false),
                    None => assert!(true),
                },
                Err(_) => assert!(false),
            };
        } else {
            // expect these to exist
            match read_result {
                Ok(bytes) => match bytes {
                    Some(value_vector) => {
                        assert_eq!(value_vector, vals.get(i).unwrap().as_bytes().to_vec())
                    }
                    None => assert!(false),
                },
                Err(_) => assert!(false),
            };
        }
    }
}

#[test]
fn delete_is_idempotent() {
    let mut store = Store::new();
    store.write_key_val(b"boo", b"value").unwrap();

    let first = store.delete_key(b"boo");
    assert_eq!(first, Ok(Some(b"value".to_vec())));
    assert_eq!(store.read_key(b"boo"), Ok(None));

    // a second delete removes nothing and leaves the store unchanged
    let image_before = size(&store);
    let second = store.delete_key(b"boo");
    assert_eq!(second, Ok(None));
    assert_eq!(store.read_key(b"boo"), Ok(None));
    assert_eq!(size(&store), image_before);
}

#[test]
fn repeated_upsert_writes_zero_bytes_second_time() {
    let mut store = Store::new();

    let first = store.write_key_val(b"k", b"a value");
    assert_eq!(first, Ok(41 + 7));

    let second = store.write_key_val(b"k", b"a value");
    assert_eq!(second, Ok(0));
    assert_eq!(store.read_key(b"k"), Ok(Some(b"a value".to_vec())));
}

#[test]
fn empty_value_round_trips() {
    let mut store = Store::new();
    assert_eq!(store.write_key_val(b"empty", b""), Ok(41));
    assert_eq!(store.read_key(b"empty"), Ok(Some(Vec::new())));
}

#[test]
fn empty_key_round_trips() {
    let mut store = Store::new();
    assert_eq!(store.write_key_val(b"", b"anonymous"), Ok(41 + 9));
    assert_eq!(store.read_key(b""), Ok(Some(b"anonymous".to_vec())));
}

#[test]
fn short_record_surfaces_corruption() {
    // three stray bytes cannot start a record
    let store = Store::from_image(vec![1, 2, 3]);
    assert_eq!(store.read_key(b"meh"), Err(StoreError::Corrupt));
    assert_eq!(store.record_count(), Err(StoreError::Corrupt));

    let mut store = Store::from_image(vec![1, 2, 3]);
    assert_eq!(store.delete_key(b"meh"), Err(StoreError::Corrupt));
    assert_eq!(store.compact(), Err(StoreError::Corrupt));
    assert_eq!(store.write_key_val(b"meh", b"v"), Err(StoreError::Corrupt));
    // the corrupt image is left unmodified
    assert_eq!(size(&store), 3);
}

#[test]
fn missing_file_reports_size_zero() {
    let store = Store::new();
    assert_eq!(size(&store), 0);

    let mut store = Store::new();
    store.write_key_val(b"boo", b"four").unwrap();
    // one record: 32 digest bytes, 8 length bytes, 1 tombstone byte, 4 value bytes
    assert_eq!(size(&store), 45);
}

#[test]
fn record_layout_is_digest_length_tombstone_value() {
    let mut store = Store::new();
    store.write_key_val(b"boo", b"some value goes here").unwrap();

    let mut expected = coat_check::digest::hash_key("boo").into_bytes();
    expected.extend_from_slice(&20u64.to_le_bytes());
    expected.push(0);
    expected.extend_from_slice(b"some value goes here");

    match store.image() {
        Some(img) => assert_eq!(img, &expected),
        None => assert!(false),
    }
}

#[test]
fn delete_flips_only_the_tombstone_byte() {
    let mut store = Store::new();
    store.write_key_val(b"boo", b"payload").unwrap();
    let before = match store.image() {
        Some(img) => img.clone(),
        None => unreachable!(),
    };

    store.delete_key(b"boo").unwrap();
    let after = match store.image() {
        Some(img) => img.clone(),
        None => unreachable!(),
    };

    assert_eq!(before.len(), after.len());
    for i in 0..before.len() {
        if i == 40 {
            assert_eq!(before[i], 0);
            assert_eq!(after[i], 1);
        } else {
            assert_eq!(before[i], after[i]);
        }
    }
}

#[test]
fn operations_on_one_key_leave_others_alone() {
    let mut store = Store::new();
    store.write_key_val(b"a", b"va").unwrap();
    store.write_key_val(b"b", b"vb").unwrap();
    store.delete_key(b"a").unwrap();
    store.write_key_val(b"c", b"vc").unwrap();
    assert_eq!(store.read_key(b"b"), Ok(Some(b"vb".to_vec())));
    store.compact().unwrap();
    assert_eq!(store.read_key(b"b"), Ok(Some(b"vb".to_vec())));
    assert_eq!(store.read_key(b"a"), Ok(None));
    assert_eq!(store.read_key(b"c"), Ok(Some(b"vc".to_vec())));
}
