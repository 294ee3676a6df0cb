use coat_check::digest::digest_of_key;
use coat_check::digest::hash_key;

#[test]
fn key_hashing_is_deterministic() {
    let hashed = hash_key("coat check");
    assert_eq!(hashed, "20b63d38d5ea19e7de07c2f80f255546");
}

#[test]
fn key_hashing_is_case_sensitive() {
    let hashed_one = hash_key("coat check");
    let hashed_two = hash_key("Coat CHECK");
    assert_ne!(hashed_one, hashed_two);
}

#[test]
fn key_digest_bytes_match_hashed_text() {
    let text = hash_key("coat check");
    let bytes = digest_of_key(b"coat check");
    assert_eq!(bytes, text.as_bytes().to_vec());
    assert_eq!(bytes.len(), 32);
}

#[test]
fn key_hashing_same_key_twice_gives_equal_digests() {
    assert_eq!(hash_key("boo"), hash_key("boo"));
    assert_eq!(digest_of_key(b"katakana"), digest_of_key(b"katakana"));
}
