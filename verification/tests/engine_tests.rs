use coat_check::codec::encode_record;
use coat_check::digest::digest_of_key;
use coat_check::engine::read_scan;
use coat_check::engine::record_count;
use coat_check::engine::upsert_action;
use coat_check::engine::StoreError;
use coat_check::engine::UpsertAction;

#[test]
fn scan_skips_dead_records_and_finds_later_live_one() {
    let d = digest_of_key(b"k");
    let mut img = encode_record(&d, b"old");
    img[40] = 1; // tombstone the first record by hand
    img.extend_from_slice(&encode_record(&d, b"new"));
    assert_eq!(read_scan(&img, &d), Ok(Some(b"new".to_vec())));
}

#[test]
fn scan_returns_first_live_record_in_file_order() {
    let d = digest_of_key(b"k");
    let mut img = encode_record(&d, b"a");
    img.extend_from_slice(&encode_record(&d, b"b"));
    assert_eq!(read_scan(&img, &d), Ok(Some(b"a".to_vec())));
}

#[test]
fn scan_misses_other_digests() {
    let d = digest_of_key(b"k");
    let other = digest_of_key(b"kk");
    let img = encode_record(&d, b"a");
    assert_eq!(read_scan(&img, &other), Ok(None));
}

#[test]
fn scan_rejects_truncated_record() {
    let d = digest_of_key(b"k");
    let mut img = encode_record(&d, b"payload");
    img.truncate(img.len() - 1);
    assert_eq!(read_scan(&img, &d), Err(StoreError::Corrupt));
}

#[test]
fn upsert_decision_matches_read_result() {
    assert_eq!(upsert_action(&Some(b"v".to_vec()), b"v"), UpsertAction::Noop);
    assert_eq!(
        upsert_action(&Some(b"v".to_vec()), b"w"),
        UpsertAction::DeleteThenAppend
    );
    assert_eq!(upsert_action(&None, b"v"), UpsertAction::AppendOnly);
}

#[test]
fn record_count_counts_concatenated_records() {
    let d = digest_of_key(b"k");
    let mut img = encode_record(&d, b"one");
    img.extend_from_slice(&encode_record(&d, b""));
    img.extend_from_slice(&encode_record(&digest_of_key(b"j"), b"three"));
    assert_eq!(record_count(&img), Ok(3));
    assert_eq!(record_count(&[]), Ok(0));
}

#[test]
fn encoded_record_length_is_header_plus_value() {
    let d = digest_of_key(b"k");
    assert_eq!(encode_record(&d, b"").len(), 41);
    assert_eq!(encode_record(&d, b"12345").len(), 46);
}
