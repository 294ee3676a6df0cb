//! On-disk record layout.
//!
//! A backing image is a plain concatenation of records with no header,
//! trailer or separator.  Each record is four contiguous fields:
//!
//! | field     | width    | meaning                                     |
//! |-----------|----------|---------------------------------------------|
//! | digest    | 32 bytes | key digest, lowercase hexadecimal ASCII     |
//! | length    | 8 bytes  | value length, little-endian unsigned 64-bit |
//! | tombstone | 1 byte   | `0x00` live, `0x01` deleted                 |
//! | value     | `length` | opaque payload                              |
//!
//! The spec functions here read the head record of an image and the
//! executable encoder builds one; the scan algorithms live in `engine`.

use vstd::bytes::lemma_auto_spec_u64_to_from_le_bytes;
use vstd::bytes::spec_u64_from_le_bytes;
use vstd::bytes::spec_u64_to_le_bytes;
use vstd::bytes::u64_to_le_bytes;
use vstd::prelude::*;

verus! {

/// Width of a record's key-digest field in bytes.
pub const DIGEST_LEN: usize = 32;

/// Width of a record's value-length field in bytes.
pub const LEN_WIDTH: usize = 8;

/// Bytes of a record before its value: digest, value length, tombstone.
pub const HEADER_LEN: usize = 41;

/// Tombstone byte of a live record.
pub const LIVE: u8 = 0;

/// Tombstone byte of a deleted record.
pub const DEAD: u8 = 1;

/// The value length stored in the head record's length field.
pub open spec fn value_len(file: Seq<u8>) -> int
    recommends
        file.len() >= 40,
{
    spec_u64_from_le_bytes(file.subrange(32, 40)) as int
}

/// Total width of the head record: header plus value.
pub open spec fn record_len(file: Seq<u8>) -> int {
    41 + value_len(file)
}

/// The head record's key digest.
pub open spec fn head_digest(file: Seq<u8>) -> Seq<u8> {
    file.take(32)
}

/// The head record's tombstone byte.
pub open spec fn head_tombstone(file: Seq<u8>) -> u8 {
    file[40]
}

/// The head record's value payload.
pub open spec fn head_value(file: Seq<u8>) -> Seq<u8> {
    file.subrange(41, record_len(file))
}

/// Whether the image starts with a complete record.
pub open spec fn has_record(file: Seq<u8>) -> bool {
    file.len() >= 41 && record_len(file) <= file.len()
}

/// The image after the head record.
pub open spec fn tail(file: Seq<u8>) -> Seq<u8> {
    file.skip(record_len(file))
}

/// The bytes of one record.
pub open spec fn record_bytes(digest: Seq<u8>, tombstone: u8, value: Seq<u8>) -> Seq<u8> {
    digest + spec_u64_to_le_bytes(value.len() as u64) + seq![tombstone] + value
}

/// A whole image is well formed when a forward scan from its start lands on
/// complete records only and ends exactly at the image's end.
pub open spec fn wf(file: Seq<u8>) -> bool
    decreases file.len(),
{
    if file.len() == 0 {
        true
    } else if !has_record(file) {
        false
    } else {
        wf(tail(file))
    }
}

/// Reading the fields of an encoded record gives back what was encoded, for
/// any bytes that follow it.
pub proof fn lemma_record_parse(digest: Seq<u8>, tombstone: u8, value: Seq<u8>, rest: Seq<u8>)
    requires
        digest.len() == 32,
        value.len() < 0x1_0000_0000_0000_0000,
    ensures
        ({
            let f = record_bytes(digest, tombstone, value) + rest;
            &&& f.len() == 41 + value.len() + rest.len()
            &&& has_record(f)
            &&& value_len(f) == value.len()
            &&& record_len(f) == 41 + value.len()
            &&& head_digest(f) == digest
            &&& head_tombstone(f) == tombstone
            &&& head_value(f) == value
            &&& tail(f) == rest
        }),
{
    lemma_auto_spec_u64_to_from_le_bytes();
    let lb = spec_u64_to_le_bytes(value.len() as u64);
    let f = record_bytes(digest, tombstone, value) + rest;
    assert(f.len() == 41 + value.len() + rest.len());
    assert(f.subrange(32, 40) =~= lb);
    assert(value_len(f) == value.len());
    assert(head_digest(f) =~= digest);
    assert(head_tombstone(f) == tombstone);
    assert(head_value(f) =~= value);
    assert(tail(f) =~= rest);
}

/// A well-formed head record re-encodes to exactly its own bytes, so an image
/// splits into the head record's bytes followed by its tail.
pub proof fn lemma_head_reassemble(file: Seq<u8>)
    requires
        has_record(file),
    ensures
        0 <= value_len(file) < 0x1_0000_0000_0000_0000,
        record_bytes(head_digest(file), head_tombstone(file), head_value(file)) + tail(file)
            == file,
        record_bytes(head_digest(file), head_tombstone(file), head_value(file)) == file.take(
            record_len(file),
        ),
{
    lemma_auto_spec_u64_to_from_le_bytes();
    let lenb = file.subrange(32, 40);
    assert(lenb.len() == 8);
    assert(spec_u64_to_le_bytes(spec_u64_from_le_bytes(lenb)) == lenb);
    assert(head_value(file).len() == value_len(file));
    assert(value_len(file) as u64 == spec_u64_from_le_bytes(lenb)) by {
        assert(0 <= value_len(file) < 0x1_0000_0000_0000_0000);
    }
    let rb = record_bytes(head_digest(file), head_tombstone(file), head_value(file));
    assert(rb =~= file.take(record_len(file)));
    assert(rb + tail(file) =~= file);
}

/// Appends a byte slice to a vector.
pub(crate) fn append_slice(dst: &mut Vec<u8>, src: &[u8])
    ensures
        final(dst)@ == old(dst)@ + src@,
{
    let mut i: usize = 0;
    while i < src.len()
        invariant
            i <= src@.len(),
            dst@ == old(dst)@ + src@.take(i as int),
        decreases src@.len() - i,
    {
        dst.push(src[i]);
        assert(old(dst)@ + src@.take(i as int) + seq![src@[i as int]] =~= old(dst)@ + src@.take(
            i as int + 1,
        ));
        i += 1;
    }
    assert(old(dst)@ + src@.take(src@.len() as int) =~= old(dst)@ + src@);
}

/// Copies `src[start..end]` into a fresh vector.
pub(crate) fn copy_range(src: &[u8], start: usize, end: usize) -> (r: Vec<u8>)
    requires
        start <= end <= src@.len(),
    ensures
        r@ == src@.subrange(start as int, end as int),
{
    let mut r: Vec<u8> = Vec::new();
    let mut i: usize = start;
    while i < end
        invariant
            start <= i <= end <= src@.len(),
            r@ == src@.subrange(start as int, i as int),
        decreases end - i,
    {
        r.push(src[i]);
        assert(src@.subrange(start as int, i as int) + seq![src@[i as int]] =~= src@.subrange(
            start as int,
            i as int + 1,
        ));
        i += 1;
    }
    r
}

/// Encodes one live record: digest, little-endian value length, live
/// tombstone, value.
pub fn encode_record(digest: &[u8], value: &[u8]) -> (r: Vec<u8>)
    requires
        digest@.len() == 32,
    ensures
        r@ == record_bytes(digest@, LIVE, value@),
        r@.len() == 41 + value@.len(),
{
    let mut r: Vec<u8> = Vec::new();
    append_slice(&mut r, digest);
    let len_bytes = u64_to_le_bytes(value.len() as u64);
    append_slice(&mut r, len_bytes.as_slice());
    r.push(LIVE);
    append_slice(&mut r, value);
    proof {
        lemma_auto_spec_u64_to_from_le_bytes();
        assert(r@ =~= record_bytes(digest@, LIVE, value@));
    }
    r
}

} // verus!
