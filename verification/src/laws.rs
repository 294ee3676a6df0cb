//! Properties of the storage engine, proved over byte images.
//!
//! The lemmas here relate the engine's operations to each other: a value
//! just upserted is the one a read finds, deletes are idempotent, the last
//! write wins, operations under one digest leave other digests alone, and
//! compaction preserves what every read observes.

use crate::codec::head_digest;
use crate::codec::head_tombstone;
use crate::codec::head_value;
use crate::codec::lemma_head_reassemble;
use crate::codec::lemma_record_parse;
use crate::codec::record_bytes;
use crate::codec::record_len;
use crate::codec::tail;
use crate::codec::wf;
use crate::codec::DEAD;
use crate::codec::LIVE;
use crate::engine::compact_spec;
use crate::engine::count_live;
use crate::engine::count_records;
use crate::engine::delete_image;
use crate::engine::last_live_value;
use crate::engine::scan_read;
use crate::engine::unique_live;
use crate::engine::upsert_image_spec;
use crate::engine::upsert_written;
use crate::engine::ReadOutcome;
use vstd::prelude::*;

verus! {

/// Appending one record to a well-formed image keeps it well formed and
/// changes no read except, when the record is live, the read of its own
/// digest after a miss, which now finds the new value.
pub proof fn lemma_scan_append(file: Seq<u8>, digest: Seq<u8>, rd: Seq<u8>, t: u8, v: Seq<u8>)
    requires
        wf(file),
        rd.len() == 32,
        v.len() < 0x1_0000_0000_0000_0000,
    ensures
        wf(file + record_bytes(rd, t, v)),
        scan_read(file, digest) is Found ==> scan_read(file + record_bytes(rd, t, v), digest)
            == scan_read(file, digest),
        (scan_read(file, digest) is Absent && rd == digest && t == LIVE) ==> scan_read(
            file + record_bytes(rd, t, v),
            digest,
        ) == (ReadOutcome::Found { value: v }),
        (scan_read(file, digest) is Absent && !(rd == digest && t == LIVE)) ==> scan_read(
            file + record_bytes(rd, t, v),
            digest,
        ) is Absent,
    decreases file.len(),
{
    if file.len() == 0 {
        assert(file + record_bytes(rd, t, v) =~= record_bytes(rd, t, v) + Seq::<u8>::empty());
        lemma_record_parse(rd, t, v, Seq::<u8>::empty());
        assert(wf(Seq::<u8>::empty()));
        assert(scan_read(Seq::<u8>::empty(), digest) is Absent);
    } else {
        lemma_head_reassemble(file);
        let hd = head_digest(file);
        let ht = head_tombstone(file);
        let hv = head_value(file);
        let tl = tail(file);
        lemma_record_parse(hd, ht, hv, tl + record_bytes(rd, t, v));
        assert(file + record_bytes(rd, t, v) =~= record_bytes(hd, ht, hv) + (tl + record_bytes(
            rd,
            t,
            v,
        )));
        lemma_scan_append(tl, digest, rd, t, v);
    }
}

/// The delete image of a well-formed image: still well formed, the same
/// length, no live record left under the deleted digest, and nothing left
/// for a second delete to remove.
pub proof fn lemma_delete_image_props(file: Seq<u8>, digest: Seq<u8>)
    requires
        wf(file),
    ensures
        wf(delete_image(file, digest)),
        delete_image(file, digest).len() == file.len(),
        scan_read(delete_image(file, digest), digest) is Absent,
        last_live_value(delete_image(file, digest), digest) is None,
        delete_image(delete_image(file, digest), digest) == delete_image(file, digest),
    decreases file.len(),
{
    if file.len() == 0 {
        assert(delete_image(file, digest) =~= file);
    } else {
        lemma_head_reassemble(file);
        let hd = head_digest(file);
        let ht = head_tombstone(file);
        let hv = head_value(file);
        let tl = tail(file);
        lemma_delete_image_props(tl, digest);
        let flip = hd == digest && ht == LIVE;
        let ht2 = if flip {
            DEAD
        } else {
            ht
        };
        let head2 = if flip {
            record_bytes(digest, DEAD, hv)
        } else {
            file.take(record_len(file))
        };
        assert(head2 == record_bytes(if flip { digest } else { hd }, ht2, hv));
        lemma_record_parse(hd, ht2, hv, delete_image(tl, digest));
        assert(delete_image(file, digest) == record_bytes(hd, ht2, hv) + delete_image(
            tl,
            digest,
        ));
        let img = delete_image(file, digest);
        assert(head_digest(img) == hd && head_tombstone(img) == ht2 && head_value(img) == hv);
        assert(tail(img) == delete_image(tl, digest));
        assert(!(hd == digest && ht2 == LIVE));
        // the second delete flips nothing in the head and, by induction,
        // nothing in the tail
        lemma_record_parse(hd, ht2, hv, delete_image(delete_image(tl, digest), digest));
        assert(delete_image(img, digest) =~= img);
    }
}

/// A delete under one digest changes no read under another.
pub proof fn lemma_delete_frame(file: Seq<u8>, digest: Seq<u8>, other: Seq<u8>)
    requires
        wf(file),
        other != digest,
    ensures
        scan_read(delete_image(file, digest), other) == scan_read(file, other),
    decreases file.len(),
{
    if file.len() == 0 {
        assert(delete_image(file, digest) =~= file);
    } else {
        lemma_head_reassemble(file);
        let hd = head_digest(file);
        let ht = head_tombstone(file);
        let hv = head_value(file);
        let tl = tail(file);
        let flip = hd == digest && ht == LIVE;
        let ht2 = if flip {
            DEAD
        } else {
            ht
        };
        assert((if flip {
            record_bytes(digest, DEAD, hv)
        } else {
            file.take(record_len(file))
        }) == record_bytes(hd, ht2, hv));
        lemma_record_parse(hd, ht2, hv, delete_image(tl, digest));
        if hd == other && ht == LIVE {
            assert(ht2 == LIVE);
        } else {
            assert(!(hd == other && ht2 == LIVE));
            lemma_delete_frame(tl, digest, other);
        }
    }
}

/// A delete never revives a record, so it keeps the invariant that at most
/// one record per digest is live.
pub proof fn lemma_delete_unique(file: Seq<u8>, digest: Seq<u8>)
    requires
        wf(file),
        unique_live(file),
    ensures
        unique_live(delete_image(file, digest)),
    decreases file.len(),
{
    if file.len() == 0 {
        assert(delete_image(file, digest) =~= file);
    } else {
        lemma_head_reassemble(file);
        let hd = head_digest(file);
        let ht = head_tombstone(file);
        let hv = head_value(file);
        let tl = tail(file);
        let flip = hd == digest && ht == LIVE;
        let ht2 = if flip {
            DEAD
        } else {
            ht
        };
        assert((if flip {
            record_bytes(digest, DEAD, hv)
        } else {
            file.take(record_len(file))
        }) == record_bytes(hd, ht2, hv));
        lemma_record_parse(hd, ht2, hv, delete_image(tl, digest));
        lemma_delete_unique(tl, digest);
        if ht2 == LIVE {
            assert(hd != digest);
            lemma_delete_frame(tl, digest, hd);
            assert(!(scan_read(delete_image(tl, digest), hd) is Found));
        }
    }
}

/// An appended live record under a digest with no live record keeps the
/// one-live-record-per-digest invariant.
pub proof fn lemma_append_unique(file: Seq<u8>, rd: Seq<u8>, v: Seq<u8>)
    requires
        wf(file),
        unique_live(file),
        rd.len() == 32,
        v.len() < 0x1_0000_0000_0000_0000,
        scan_read(file, rd) is Absent,
    ensures
        unique_live(file + record_bytes(rd, LIVE, v)),
    decreases file.len(),
{
    if file.len() == 0 {
        assert(file + record_bytes(rd, LIVE, v) =~= record_bytes(rd, LIVE, v)
            + Seq::<u8>::empty());
        lemma_record_parse(rd, LIVE, v, Seq::<u8>::empty());
        assert(unique_live(Seq::<u8>::empty()));
        assert(scan_read(Seq::<u8>::empty(), rd) is Absent);
    } else {
        lemma_head_reassemble(file);
        let hd = head_digest(file);
        let ht = head_tombstone(file);
        let hv = head_value(file);
        let tl = tail(file);
        lemma_record_parse(hd, ht, hv, tl + record_bytes(rd, LIVE, v));
        assert(file + record_bytes(rd, LIVE, v) =~= record_bytes(hd, ht, hv) + (tl
            + record_bytes(rd, LIVE, v)));
        lemma_append_unique(tl, rd, v);
        if ht == LIVE {
            assert(hd != rd);
            crate::engine::lemma_wf_scan_not_corrupt(tl, hd);
            lemma_scan_append(tl, hd, rd, LIVE, v);
            assert(!(scan_read(tl + record_bytes(rd, LIVE, v), hd) is Found));
        }
    }
}

/// Read-after-write: once an upsert of `(digest, v)` goes through, a read of
/// that digest finds exactly `v`; the image stays well formed and keeps at
/// most one live record per digest.
pub proof fn lemma_read_after_upsert(file: Seq<u8>, digest: Seq<u8>, v: Seq<u8>)
    requires
        wf(file),
        digest.len() == 32,
        v.len() < 0x1_0000_0000_0000_0000,
    ensures
        scan_read(upsert_image_spec(file, digest, v), digest) == (ReadOutcome::Found {
            value: v,
        }),
        wf(upsert_image_spec(file, digest, v)),
        unique_live(file) ==> unique_live(upsert_image_spec(file, digest, v)),
{
    crate::engine::lemma_wf_scan_not_corrupt(file, digest);
    match scan_read(file, digest) {
        ReadOutcome::Found { value: cur } => {
            if cur == v {
            } else {
                lemma_delete_image_props(file, digest);
                lemma_scan_append(delete_image(file, digest), digest, digest, LIVE, v);
                if unique_live(file) {
                    lemma_delete_unique(file, digest);
                    lemma_append_unique(delete_image(file, digest), digest, v);
                }
            }
        },
        ReadOutcome::Absent => {
            lemma_scan_append(file, digest, digest, LIVE, v);
            if unique_live(file) {
                lemma_append_unique(file, digest, v);
            }
        },
        ReadOutcome::Corrupt => {
            assert(false);
        },
    }
}

/// An upsert under one digest changes no read under another.
pub proof fn lemma_upsert_frame(file: Seq<u8>, digest: Seq<u8>, v: Seq<u8>, other: Seq<u8>)
    requires
        wf(file),
        digest.len() == 32,
        v.len() < 0x1_0000_0000_0000_0000,
        other != digest,
    ensures
        scan_read(upsert_image_spec(file, digest, v), other) == scan_read(file, other),
{
    crate::engine::lemma_wf_scan_not_corrupt(file, other);
    match scan_read(file, digest) {
        ReadOutcome::Found { value: cur } => {
            if cur != v {
                lemma_delete_image_props(file, digest);
                lemma_delete_frame(file, digest, other);
                lemma_scan_append(delete_image(file, digest), other, digest, LIVE, v);
            }
        },
        ReadOutcome::Absent => {
            lemma_scan_append(file, other, digest, LIVE, v);
        },
        ReadOutcome::Corrupt => {
            crate::engine::lemma_wf_scan_not_corrupt(file, digest);
            assert(false);
        },
    }
}

/// Delete idempotence: after a delete no read finds the digest, a second
/// delete removes nothing, and the image does not change again.
pub proof fn lemma_delete_idempotent(file: Seq<u8>, digest: Seq<u8>)
    requires
        wf(file),
    ensures
        scan_read(delete_image(file, digest), digest) is Absent,
        last_live_value(delete_image(file, digest), digest) is None,
        delete_image(delete_image(file, digest), digest) == delete_image(file, digest),
{
    lemma_delete_image_props(file, digest);
}

/// Upsert idempotence: an upsert whose value is not yet stored writes a
/// whole record; repeating it writes nothing and leaves the image as it was.
pub proof fn lemma_upsert_idempotent(file: Seq<u8>, digest: Seq<u8>, v: Seq<u8>)
    requires
        wf(file),
        digest.len() == 32,
        v.len() < 0x1_0000_0000_0000_0000,
    ensures
        scan_read(file, digest) != (ReadOutcome::Found { value: v }) ==> upsert_written(
            file,
            digest,
            v,
        ) > 0,
        upsert_written(upsert_image_spec(file, digest, v), digest, v) == 0,
        upsert_image_spec(upsert_image_spec(file, digest, v), digest, v) == upsert_image_spec(
            file,
            digest,
            v,
        ),
{
    lemma_read_after_upsert(file, digest, v);
}

/// Last write wins: two upserts of distinct values under one digest leave
/// the second value as what a read finds.
pub proof fn lemma_last_write_wins(file: Seq<u8>, digest: Seq<u8>, v1: Seq<u8>, v2: Seq<u8>)
    requires
        wf(file),
        digest.len() == 32,
        v1.len() < 0x1_0000_0000_0000_0000,
        v2.len() < 0x1_0000_0000_0000_0000,
        v1 != v2,
    ensures
        scan_read(
            upsert_image_spec(upsert_image_spec(file, digest, v1), digest, v2),
            digest,
        ) == (ReadOutcome::Found { value: v2 }),
{
    lemma_read_after_upsert(file, digest, v1);
    lemma_read_after_upsert(upsert_image_spec(file, digest, v1), digest, v2);
}

/// Compaction keeps the image well formed.
pub proof fn lemma_compact_wf(file: Seq<u8>)
    requires
        wf(file),
    ensures
        wf(compact_spec(file)),
    decreases file.len(),
{
    if file.len() == 0 {
    } else {
        lemma_head_reassemble(file);
        let tl = tail(file);
        lemma_compact_wf(tl);
        if head_tombstone(file) == LIVE && !(scan_read(tl, head_digest(file)) is Found) {
            lemma_record_parse(
                head_digest(file),
                LIVE,
                head_value(file),
                compact_spec(tl),
            );
        }
    }
}

/// Compaction preserves semantics: with at most one live record per digest,
/// every read of the compacted image observes what it observed before.
pub proof fn lemma_compact_preserves_read(file: Seq<u8>, digest: Seq<u8>)
    requires
        wf(file),
        unique_live(file),
    ensures
        scan_read(compact_spec(file), digest) == scan_read(file, digest),
    decreases file.len(),
{
    if file.len() == 0 {
        assert(compact_spec(file) =~= file);
    } else {
        lemma_head_reassemble(file);
        let hd = head_digest(file);
        let ht = head_tombstone(file);
        let hv = head_value(file);
        let tl = tail(file);
        lemma_compact_preserves_read(tl, digest);
        if ht == LIVE && !(scan_read(tl, hd) is Found) {
            lemma_record_parse(hd, LIVE, hv, compact_spec(tl));
        } else if ht == LIVE {
            assert(false);
        }
    }
}

/// Compaction leaves exactly one record per live digest: the compacted image
/// holds as many records as the original held live ones.
pub proof fn lemma_compact_count(file: Seq<u8>)
    requires
        wf(file),
        unique_live(file),
    ensures
        count_records(compact_spec(file)) == count_live(file),
    decreases file.len(),
{
    if file.len() == 0 {
        assert(compact_spec(file) =~= file);
    } else {
        lemma_head_reassemble(file);
        let tl = tail(file);
        lemma_compact_count(tl);
        if head_tombstone(file) == LIVE && !(scan_read(tl, head_digest(file)) is Found) {
            lemma_record_parse(
                head_digest(file),
                LIVE,
                head_value(file),
                compact_spec(tl),
            );
        } else if head_tombstone(file) == LIVE {
            assert(false);
        }
    }
}

/// Compaction also keeps at most one live record per digest.
pub proof fn lemma_compact_unique(file: Seq<u8>)
    requires
        wf(file),
        unique_live(file),
    ensures
        unique_live(compact_spec(file)),
    decreases file.len(),
{
    if file.len() == 0 {
        assert(compact_spec(file) =~= file);
    } else {
        lemma_head_reassemble(file);
        let hd = head_digest(file);
        let ht = head_tombstone(file);
        let hv = head_value(file);
        let tl = tail(file);
        lemma_compact_unique(tl);
        if ht == LIVE && !(scan_read(tl, hd) is Found) {
            lemma_record_parse(hd, LIVE, hv, compact_spec(tl));
            lemma_compact_preserves_read(tl, hd);
        } else if ht == LIVE {
            assert(false);
        }
    }
}

/// Digest determinism: a key's digest is a pure function of its bytes, so
/// equal keys always land in the same record slot.  (That two *distinct*
/// keys get distinct slots is not promised anywhere: a digest collision
/// maps them to one slot silently.)
pub proof fn lemma_digest_deterministic(k1: Seq<u8>, k2: Seq<u8>)
    requires
        k1 == k2,
    ensures
        crate::digest::key_digest(k1) == crate::digest::key_digest(k2),
{
}

/// The empty image is well formed with at most one live record per digest,
/// and every read of it misses: the state of a store before its first write.
pub proof fn lemma_empty_image(digest: Seq<u8>)
    ensures
        wf(Seq::<u8>::empty()),
        unique_live(Seq::<u8>::empty()),
        scan_read(Seq::<u8>::empty(), digest) is Absent,
{
}

} // verus!
