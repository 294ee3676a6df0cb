//! The storage engine's scan algorithms, verified over byte images.
//!
//! Every operation here is a pure function from a backing image (the file's
//! bytes) and a key digest to a result and, for writers, a new image.  The
//! process glue that owns the real file opens it under an advisory lock,
//! hands the bytes in, and writes the returned bytes (or the returned
//! tombstone flips) back out.

use crate::codec::has_record;
use crate::codec::head_digest;
use crate::codec::head_tombstone;
use crate::codec::head_value;
use crate::codec::record_bytes;
use crate::codec::record_len;
use crate::codec::tail;
use crate::codec::value_len;
use crate::codec::wf;
use crate::codec::DEAD;
use crate::codec::LIVE;
use vstd::bytes::u64_from_le_bytes;
use vstd::prelude::*;
use vstd::slice::slice_subrange;
use vstd::slice::slice_to_vec;

verus! {

/// Errors surfaced by the storage engine.
///
/// `NotFound` stands for a missing backing file; `Corrupt` for a scan that
/// ran into a short record.
#[derive(Clone, Copy, Debug, PartialEq, Eq, Structural)]
pub enum StoreError {
    NotFound,
    Corrupt,
}

/// What a forward scan for a digest observes.
pub enum ReadOutcome {
    /// The first live record under the digest holds this value.
    Found { value: Seq<u8> },
    /// The scan reached the end of the image without a live match.
    Absent,
    /// The scan ran into a short record.
    Corrupt,
}

/// The read scan: walk records from the front; the first live record whose
/// digest matches decides the result.
pub open spec fn scan_read(file: Seq<u8>, digest: Seq<u8>) -> ReadOutcome
    decreases file.len(),
{
    if file.len() == 0 {
        ReadOutcome::Absent
    } else if !has_record(file) {
        ReadOutcome::Corrupt
    } else if head_digest(file) == digest && head_tombstone(file) == LIVE {
        ReadOutcome::Found { value: head_value(file) }
    } else {
        scan_read(tail(file), digest)
    }
}

/// The value of the last live record under a digest, if any: what a delete
/// hands back.
pub open spec fn last_live_value(file: Seq<u8>, digest: Seq<u8>) -> Option<Seq<u8>>
    decreases file.len(),
{
    if !has_record(file) {
        None
    } else {
        let rest = last_live_value(tail(file), digest);
        if rest is Some {
            rest
        } else if head_digest(file) == digest && head_tombstone(file) == LIVE {
            Some(head_value(file))
        } else {
            None
        }
    }
}

/// The image after a delete: every live record under the digest has its
/// tombstone flipped; all other bytes are unchanged.
pub open spec fn delete_image(file: Seq<u8>, digest: Seq<u8>) -> Seq<u8>
    decreases file.len(),
{
    if !has_record(file) {
        file
    } else {
        let head = if head_digest(file) == digest && head_tombstone(file) == LIVE {
            record_bytes(digest, DEAD, head_value(file))
        } else {
            file.take(record_len(file))
        };
        head + delete_image(tail(file), digest)
    }
}

/// At most one live record per digest: whenever a record is live, no later
/// record under the same digest is live.  The write path preserves this.
pub open spec fn unique_live(file: Seq<u8>) -> bool
    decreases file.len(),
{
    if !has_record(file) {
        true
    } else {
        (head_tombstone(file) == LIVE ==> !(scan_read(tail(file), head_digest(file)) is Found))
            && unique_live(tail(file))
    }
}

/// The image after compaction: keep, in file order, each record that is live
/// and has no later live record under the same digest.
pub open spec fn compact_spec(file: Seq<u8>) -> Seq<u8>
    decreases file.len(),
{
    if !has_record(file) {
        Seq::empty()
    } else if head_tombstone(file) == LIVE && !(scan_read(tail(file), head_digest(file))
        is Found) {
        record_bytes(head_digest(file), LIVE, head_value(file)) + compact_spec(tail(file))
    } else {
        compact_spec(tail(file))
    }
}

/// How many records a well-formed image holds.
pub open spec fn count_records(file: Seq<u8>) -> nat
    decreases file.len(),
{
    if !has_record(file) {
        0
    } else {
        1 + count_records(tail(file))
    }
}

/// How many of them are live.
pub open spec fn count_live(file: Seq<u8>) -> nat
    decreases file.len(),
{
    if !has_record(file) {
        0
    } else if head_tombstone(file) == LIVE {
        1 + count_live(tail(file))
    } else {
        count_live(tail(file))
    }
}

/// Byte-wise slice equality.
pub(crate) fn bytes_eq(a: &[u8], b: &[u8]) -> (r: bool)
    ensures
        r == (a@ == b@),
{
    if a.len() != b.len() {
        assert(a@ != b@);
        return false;
    }
    let mut i: usize = 0;
    while i < a.len()
        invariant
            i <= a@.len(),
            a@.len() == b@.len(),
            forall|j: int| 0 <= j < i ==> a@[j] == b@[j],
        decreases a@.len() - i,
    {
        if a[i] != b[i] {
            assert(a@ != b@);
            return false;
        }
        i += 1;
    }
    assert(a@ =~= b@);
    true
}

/// Parses the record header at `pos`: if a complete record starts there,
/// returns the offset just past it.
fn parse_header(file: &[u8], pos: usize) -> (r: Option<usize>)
    requires
        pos < file@.len(),
    ensures
        ({
            let s = file@.skip(pos as int);
            match r {
                Some(end) => {
                    &&& s.len() > 0
                    &&& has_record(s)
                    &&& end == pos + record_len(s)
                    &&& pos + 41 <= end <= file@.len()
                },
                None => s.len() > 0 && !has_record(s),
            }
        }),
{
    let ghost s = file@.skip(pos as int);
    if file.len() - pos < 41 {
        assert(!has_record(s));
        return None;
    }
    let len_slice = slice_subrange(file, pos + 32, pos + 40);
    let vlen64 = u64_from_le_bytes(len_slice);
    proof {
        assert(s.subrange(32, 40) =~= file@.subrange(pos + 32, pos + 40));
    }
    let avail = file.len() - pos - 41;
    if vlen64 > avail as u64 {
        assert(!has_record(s));
        return None;
    }
    let vlen = vlen64 as usize;
    assert(vlen == value_len(s));
    assert(has_record(s));
    Some(pos + 41 + vlen)
}

/// The read scan over an image: the first live record under the digest
/// decides; a short record aborts the scan.
pub fn read_scan(file: &[u8], digest: &[u8]) -> (r: Result<Option<Vec<u8>>, StoreError>)
    ensures
        match r {
            Ok(Some(v)) => scan_read(file@, digest@) == (ReadOutcome::Found { value: v@ }),
            Ok(None) => scan_read(file@, digest@) is Absent,
            Err(e) => scan_read(file@, digest@) is Corrupt && e == StoreError::Corrupt,
        },
{
    let mut pos: usize = 0;
    proof {
        assert(file@.skip(0) =~= file@);
    }
    loop
        invariant
            pos <= file@.len(),
            scan_read(file@.skip(pos as int), digest@) == scan_read(file@, digest@),
        decreases file@.len() - pos,
    {
        let ghost s = file@.skip(pos as int);
        if pos == file.len() {
            assert(s.len() == 0);
            return Ok(None);
        }
        let rec_end = match parse_header(file, pos) {
            Some(end) => end,
            None => {
                return Err(StoreError::Corrupt);
            },
        };
        let dig = slice_subrange(file, pos, pos + 32);
        proof {
            assert(dig@ =~= s.take(32));
        }
        if bytes_eq(dig, digest) && file[pos + 40] == LIVE {
            assert(head_digest(s) == digest@ && head_tombstone(s) == LIVE);
            let v = crate::codec::copy_range(file, pos + 41, rec_end);
            proof {
                assert(v@ =~= head_value(s));
            }
            return Ok(Some(v));
        }
        proof {
            assert(!(head_digest(s) == digest@ && head_tombstone(s) == LIVE));
            assert(tail(s) =~= file@.skip(rec_end as int));
        }
        pos = rec_end;
    }
}

/// What a delete scan produces: the new image, the tombstone bytes it
/// flipped, and the value it removed.
pub struct DeleteScan {
    /// The image after the delete.
    pub image: Vec<u8>,
    /// Offsets of the tombstone bytes flipped from live to deleted.
    pub flips: Vec<usize>,
    /// The last live value under the digest before the call, if any.
    pub removed: Option<Vec<u8>>,
}

/// The delete scan: flip the tombstone of every live record under the digest
/// and report the last such record's value.  The new image differs from the
/// old one only at the flipped tombstone bytes, so the caller may apply it by
/// writing the single byte `DEAD` at each offset in `flips`.
pub fn delete_scan(file: &[u8], digest: &[u8]) -> (r: Result<DeleteScan, StoreError>)
    ensures
        r is Ok <==> wf(file@),
        match r {
            Ok(ds) => {
                &&& ds.image@ == delete_image(file@, digest@)
                &&& ds.removed.deep_view() == last_live_value(file@, digest@)
                &&& ds.image@.len() == file@.len()
                &&& forall|k: int|
                    0 <= k < ds.flips@.len() ==> #[trigger] ds.flips@[k] < file@.len() && file@[ds.flips@[k] as int]
                        == LIVE && ds.image@[ds.flips@[k] as int] == DEAD
                &&& forall|i: int|
                    0 <= i < file@.len() && ds.image@[i] != file@[i] ==> ds.flips@.contains(
                        i as usize,
                    )
            },
            Err(e) => e == StoreError::Corrupt,
        },
{
    let mut pos: usize = 0;
    let mut out: Vec<u8> = Vec::new();
    let mut flips: Vec<usize> = Vec::new();
    let mut removed: Option<Vec<u8>> = None;
    proof {
        assert(file@.skip(0) =~= file@);
        assert(Seq::<u8>::empty() + delete_image(file@, digest@) =~= delete_image(
            file@,
            digest@,
        ));
    }
    loop
        invariant
            pos <= file@.len(),
            out@.len() == pos,
            wf(file@) <==> wf(file@.skip(pos as int)),
            delete_image(file@, digest@) == out@ + delete_image(
                file@.skip(pos as int),
                digest@,
            ),
            last_live_value(file@, digest@) == if last_live_value(
                file@.skip(pos as int),
                digest@,
            ) is Some {
                last_live_value(file@.skip(pos as int), digest@)
            } else {
                removed.deep_view()
            },
            forall|k: int|
                0 <= k < flips@.len() ==> #[trigger] flips@[k] < pos && file@[flips@[k] as int]
                    == LIVE && out@[flips@[k] as int] == DEAD,
            forall|i: int|
                0 <= i < pos && out@[i] != file@[i] ==> flips@.contains(i as usize),
        decreases file@.len() - pos,
    {
        let ghost s = file@.skip(pos as int);
        if pos == file.len() {
            assert(s.len() == 0);
            assert(delete_image(s, digest@) =~= Seq::<u8>::empty());
            assert(out@ + delete_image(s, digest@) =~= out@);
            assert(last_live_value(s, digest@) is None);
            return Ok(DeleteScan { image: out, flips, removed });
        }
        let rec_end = match parse_header(file, pos) {
            Some(end) => end,
            None => {
                assert(!wf(s));
                return Err(StoreError::Corrupt);
            },
        };
        let ghost rest = file@.skip(rec_end as int);
        proof {
            assert(tail(s) =~= rest);
        }
        let dig = slice_subrange(file, pos, pos + 32);
        proof {
            assert(dig@ =~= s.take(32));
        }
        let ghost out0 = out@;
        let ghost flips0 = flips@;
        let matched_live = bytes_eq(dig, digest) && file[pos + 40] == LIVE;
        if matched_live {
            assert(head_digest(s) == digest@ && head_tombstone(s) == LIVE);
            crate::codec::append_slice(&mut out, slice_subrange(file, pos, pos + 40));
            out.push(DEAD);
            crate::codec::append_slice(&mut out, slice_subrange(file, pos + 41, rec_end));
            flips.push(pos + 40);
            let v = crate::codec::copy_range(file, pos + 41, rec_end);
            proof {
                assert(v@ =~= head_value(s));
            }
            removed = Some(v);
            proof {
                crate::codec::lemma_head_reassemble(s);
                let hv = head_value(s);
                let seg = record_bytes(digest@, DEAD, hv);
                assert(vstd::bytes::spec_u64_to_le_bytes(hv.len() as u64) =~= s.subrange(
                    32,
                    40,
                )) by {
                    let rb = record_bytes(head_digest(s), head_tombstone(s), hv);
                    assert(rb == s.take(record_len(s)));
                    assert forall|j: int| 0 <= j < 8 implies vstd::bytes::spec_u64_to_le_bytes(
                        hv.len() as u64,
                    )[j] == s.subrange(32, 40)[j] by {
                        assert(rb[32 + j] == vstd::bytes::spec_u64_to_le_bytes(hv.len() as u64)[j]);
                        assert(s.take(record_len(s))[32 + j] == s[32 + j]);
                    }
                }
                assert(out@ =~= out0 + seg) by {
                    assert(vstd::bytes::spec_u64_to_le_bytes(hv.len() as u64).len() == 8);
                    assert forall|i: int| 0 <= i < out@.len() implies out@[i] == (out0 + seg)[i] by {
                        if pos <= i < pos + 32 {
                            assert(seg[i - pos] == digest@[i - pos]);
                            assert(s[i - pos] == digest@[i - pos]);
                        } else if pos + 32 <= i < pos + 40 {
                            assert(seg[i - pos] == vstd::bytes::spec_u64_to_le_bytes(
                                hv.len() as u64,
                            )[i - pos - 32]);
                        } else if pos + 41 <= i {
                            assert(seg[i - pos] == hv[i - pos - 41]);
                        }
                    }
                }
                assert(delete_image(s, digest@) == seg + delete_image(rest, digest@));
                assert(out@ + delete_image(rest, digest@) =~= delete_image(file@, digest@)) by {
                    assert(out0 + (seg + delete_image(rest, digest@)) =~= (out0 + seg)
                        + delete_image(rest, digest@));
                }
            }
        } else {
            assert(!(head_digest(s) == digest@ && head_tombstone(s) == LIVE));
            crate::codec::append_slice(&mut out, slice_subrange(file, pos, rec_end));
            proof {
                let seg = s.take(record_len(s));
                assert(seg =~= file@.subrange(pos as int, rec_end as int));
                assert(out@ =~= out0 + seg);
                assert(delete_image(s, digest@) == seg + delete_image(rest, digest@));
                assert(out@ + delete_image(rest, digest@) =~= delete_image(file@, digest@)) by {
                    assert(out0 + (seg + delete_image(rest, digest@)) =~= (out0 + seg)
                        + delete_image(rest, digest@));
                }
            }
        }
        proof {
            if matched_live {
                assert(flips@ == flips0.push((pos + 40) as usize));
            } else {
                assert(flips@ == flips0);
            }
            assert forall|x: usize| flips0.contains(x) implies flips@.contains(x) by {
                let k = choose|k: int| 0 <= k < flips0.len() && flips0[k] == x;
                assert(flips@[k] == x);
            }
            assert forall|i: int|
                0 <= i < rec_end && out@[i] != file@[i] implies flips@.contains(i as usize) by {
                if i < pos {
                    assert(out@[i] == out0[i]);
                    assert(flips0.contains(i as usize));
                } else {
                    if matched_live {
                        assert(out@[i] == (out0 + record_bytes(digest@, DEAD, head_value(s)))[i]);
                        if i != pos + 40 {
                            assert(out@[i] == file@[i]);
                        } else {
                            assert(flips@[flips@.len() - 1] == (pos + 40) as usize);
                        }
                    } else {
                        assert(out@[i] == file@[i]);
                    }
                }
            }
        }
        pos = rec_end;
    }
}

/// A scan that ends cleanly without a match has walked the whole image, so
/// the image is well formed.
pub proof fn lemma_scan_absent_wf(file: Seq<u8>, digest: Seq<u8>)
    requires
        scan_read(file, digest) is Absent,
    ensures
        wf(file),
    decreases file.len(),
{
    if file.len() == 0 {
    } else if !has_record(file) {
    } else if head_digest(file) == digest && head_tombstone(file) == LIVE {
    } else {
        lemma_scan_absent_wf(tail(file), digest);
    }
}

/// A scan over a well-formed image never runs into a short record.
pub proof fn lemma_wf_scan_not_corrupt(file: Seq<u8>, digest: Seq<u8>)
    requires
        wf(file),
    ensures
        !(scan_read(file, digest) is Corrupt),
    decreases file.len(),
{
    if file.len() == 0 {
    } else if has_record(file) && !(head_digest(file) == digest && head_tombstone(file)
        == LIVE) {
        lemma_wf_scan_not_corrupt(tail(file), digest);
    }
}

/// What an upsert does, given the value the read phase saw.
#[derive(Clone, Copy, Debug, PartialEq, Eq, Structural)]
pub enum UpsertAction {
    /// The stored value already equals the new one: write nothing.
    Noop,
    /// A different value is stored: tombstone it, then append.
    DeleteThenAppend,
    /// Nothing is stored (or no file exists yet): just append.
    AppendOnly,
}

/// The upsert decision as a function of the read phase's result.
pub open spec fn upsert_action_spec(current: Option<Seq<u8>>, value: Seq<u8>) -> UpsertAction {
    match current {
        Some(c) => if c == value {
            UpsertAction::Noop
        } else {
            UpsertAction::DeleteThenAppend
        },
        None => UpsertAction::AppendOnly,
    }
}

/// Decides what an upsert must do after its read phase.
pub fn upsert_action(current: &Option<Vec<u8>>, value: &[u8]) -> (a: UpsertAction)
    ensures
        a == upsert_action_spec(current.deep_view(), value@),
{
    match current {
        Some(c) => {
            proof {
                assert(c.deep_view() =~= c@);
            }
            if bytes_eq(c.as_slice(), value) {
                UpsertAction::Noop
            } else {
                UpsertAction::DeleteThenAppend
            }
        },
        None => UpsertAction::AppendOnly,
    }
}

/// The image after an upsert: unchanged when the value is already stored,
/// otherwise the delete image with a fresh live record appended.
pub open spec fn upsert_image_spec(file: Seq<u8>, digest: Seq<u8>, value: Seq<u8>) -> Seq<u8> {
    match scan_read(file, digest) {
        ReadOutcome::Found { value: cur } => if cur == value {
            file
        } else {
            delete_image(file, digest) + record_bytes(digest, LIVE, value)
        },
        _ => file + record_bytes(digest, LIVE, value),
    }
}

/// How many bytes an upsert writes: zero when the value is already stored,
/// else one whole record.
pub open spec fn upsert_written(file: Seq<u8>, digest: Seq<u8>, value: Seq<u8>) -> int {
    if scan_read(file, digest) == (ReadOutcome::Found { value }) {
        0
    } else {
        41 + value.len() as int
    }
}

/// The upsert over an image: read, then decide, then tombstone and append as
/// needed.  Returns the new image and the byte count written.
pub fn upsert_image(file: &[u8], digest: &[u8], value: &[u8]) -> (r: Result<
    (Vec<u8>, usize),
    StoreError,
>)
    requires
        digest@.len() == 32,
        value@.len() <= usize::MAX - 41,
    ensures
        match r {
            Ok(p) => {
                &&& p.0@ == upsert_image_spec(file@, digest@, value@)
                &&& p.1 == upsert_written(file@, digest@, value@)
            },
            Err(e) => e == StoreError::Corrupt,
        },
        r is Ok <==> match scan_read(file@, digest@) {
            ReadOutcome::Found { value: cur } => cur == value@ || wf(file@),
            ReadOutcome::Absent => true,
            ReadOutcome::Corrupt => false,
        },
{
    match read_scan(file, digest) {
        Err(e) => Err(e),
        Ok(None) => {
            proof {
                lemma_scan_absent_wf(file@, digest@);
            }
            let mut img = slice_to_vec(file);
            let rec = crate::codec::encode_record(digest, value);
            let n = rec.len();
            crate::codec::append_slice(&mut img, rec.as_slice());
            Ok((img, n))
        },
        Ok(Some(cur)) => {
            if bytes_eq(cur.as_slice(), value) {
                Ok((slice_to_vec(file), 0))
            } else {
                match delete_scan(file, digest) {
                    Err(e) => Err(e),
                    Ok(ds) => {
                        let mut img = ds.image;
                        let rec = crate::codec::encode_record(digest, value);
                        let n = rec.len();
                        crate::codec::append_slice(&mut img, rec.as_slice());
                        Ok((img, n))
                    },
                }
            }
        },
    }
}

/// Compaction over an image: keep, in file order, each live record with no
/// later live record under the same digest; drop everything else.
pub fn compact_image(file: &[u8]) -> (r: Result<Vec<u8>, StoreError>)
    ensures
        r is Ok <==> wf(file@),
        match r {
            Ok(img) => img@ == compact_spec(file@),
            Err(e) => e == StoreError::Corrupt,
        },
{
    let mut pos: usize = 0;
    let mut out: Vec<u8> = Vec::new();
    proof {
        assert(file@.skip(0) =~= file@);
        assert(Seq::<u8>::empty() + compact_spec(file@) =~= compact_spec(file@));
    }
    loop
        invariant
            pos <= file@.len(),
            wf(file@) <==> wf(file@.skip(pos as int)),
            compact_spec(file@) == out@ + compact_spec(file@.skip(pos as int)),
        decreases file@.len() - pos,
    {
        let ghost s = file@.skip(pos as int);
        if pos == file.len() {
            assert(compact_spec(s) =~= Seq::<u8>::empty());
            assert(out@ + compact_spec(s) =~= out@);
            return Ok(out);
        }
        let rec_end = match parse_header(file, pos) {
            Some(end) => end,
            None => {
                return Err(StoreError::Corrupt);
            },
        };
        let ghost rest = file@.skip(rec_end as int);
        proof {
            assert(tail(s) =~= rest);
        }
        let ghost out0 = out@;
        if file[pos + 40] == LIVE {
            let dig = slice_subrange(file, pos, pos + 32);
            let suffix = slice_subrange(file, rec_end, file.len());
            proof {
                assert(dig@ =~= s.take(32));
                assert(suffix@ =~= rest);
            }
            match read_scan(suffix, dig) {
                Err(_) => {
                    proof {
                        if wf(rest) {
                            lemma_wf_scan_not_corrupt(rest, dig@);
                        }
                    }
                    return Err(StoreError::Corrupt);
                },
                Ok(Some(_)) => {
                    // a later live record under the same digest supersedes this one
                },
                Ok(None) => {
                    crate::codec::append_slice(&mut out, slice_subrange(file, pos, rec_end));
                    proof {
                        crate::codec::lemma_head_reassemble(s);
                        let seg = record_bytes(head_digest(s), LIVE, head_value(s));
                        assert(seg == s.take(record_len(s)));
                        assert(s.take(record_len(s)) =~= file@.subrange(
                            pos as int,
                            rec_end as int,
                        ));
                        assert(out@ =~= out0 + seg);
                        assert(out0 + (seg + compact_spec(rest)) =~= (out0 + seg) + compact_spec(
                            rest,
                        ));
                    }
                },
            }
        }
        pos = rec_end;
    }
}

/// Counts the records of an image.
pub fn record_count(file: &[u8]) -> (r: Result<usize, StoreError>)
    ensures
        r is Ok <==> wf(file@),
        match r {
            Ok(n) => n == count_records(file@),
            Err(e) => e == StoreError::Corrupt,
        },
{
    let mut pos: usize = 0;
    let mut n: usize = 0;
    proof {
        assert(file@.skip(0) =~= file@);
    }
    loop
        invariant
            pos <= file@.len(),
            wf(file@) <==> wf(file@.skip(pos as int)),
            count_records(file@) == n + count_records(file@.skip(pos as int)),
            41 * n <= pos,
        decreases file@.len() - pos,
    {
        let ghost s = file@.skip(pos as int);
        if pos == file.len() {
            return Ok(n);
        }
        match parse_header(file, pos) {
            Some(end) => {
                proof {
                    assert(tail(s) =~= file@.skip(end as int));
                }
                n = n + 1;
                pos = end;
            },
            None => {
                return Err(StoreError::Corrupt);
            },
        }
    }
}

} // verus!
