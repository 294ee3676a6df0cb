//! The store as a value: the backing file's bytes behind the engine's
//! operations.
//!
//! A `Store` holds what the backing file holds — or nothing, when the file
//! does not exist yet — and offers the same operations the store offers over
//! a real file: read, delete, upsert, compaction.  The process glue that
//! owns a real file reproduces these operations with the engine's scan
//! functions under an advisory file lock; this type gives the same
//! semantics, verified, over an in-memory image.

use crate::codec::wf;
use crate::digest::digest_of_key;
use crate::digest::key_digest;
use crate::engine::compact_spec;
use crate::engine::count_records;
use crate::engine::delete_image;
use crate::engine::last_live_value;
use crate::engine::scan_read;
use crate::engine::upsert_image_spec;
use crate::engine::upsert_written;
use crate::engine::ReadOutcome;
use crate::engine::StoreError;
use vstd::prelude::*;

verus! {

/// A key/value store over one backing image.
pub struct Store {
    image: Option<Vec<u8>>,
}

impl View for Store {
    type V = Option<Seq<u8>>;

    closed spec fn view(&self) -> Option<Seq<u8>> {
        match self.image {
            Some(v) => Some(v@),
            None => None,
        }
    }
}

impl Store {
    /// A store whose backing file does not exist yet.
    pub fn new() -> (s: Store)
        ensures
            s@ is None,
    {
        Store { image: None }
    }

    /// A store over an existing backing image.
    pub fn from_image(image: Vec<u8>) -> (s: Store)
        ensures
            s@ == Some(image@),
    {
        Store { image: Some(image) }
    }

    /// The backing image as bytes, for a caller that persists it.
    pub fn image(&self) -> (r: &Option<Vec<u8>>)
        ensures
            match r {
                Some(v) => self@ == Some(v@),
                None => self@ is None,
            },
    {
        &self.image
    }

    /// Reads the value stored under a key: the value of the first live
    /// record whose digest matches, absent when the scan reaches the end
    /// without one.  Fails with `NotFound` when the backing file does not
    /// exist, and with `Corrupt` when the scan runs into a short record.
    pub fn read_key(&self, key: &[u8]) -> (r: Result<Option<Vec<u8>>, StoreError>)
        ensures
            match self@ {
                None => r == Err::<Option<Vec<u8>>, StoreError>(StoreError::NotFound),
                Some(img) => match r {
                    Ok(Some(v)) => scan_read(img, key_digest(key@)) == (ReadOutcome::Found {
                        value: v@,
                    }),
                    Ok(None) => scan_read(img, key_digest(key@)) is Absent,
                    Err(e) => e == StoreError::Corrupt && scan_read(img, key_digest(key@))
                        is Corrupt,
                },
            },
    {
        match &self.image {
            None => Err(StoreError::NotFound),
            Some(img) => {
                let d = digest_of_key(key);
                crate::engine::read_scan(img.as_slice(), d.as_slice())
            },
        }
    }

    /// Deletes a key: flips the tombstone of every live record under its
    /// digest and returns the last such record's value, or `None` when
    /// nothing was stored.  Fails with `NotFound` when the backing file does
    /// not exist; a corrupt image is left unmodified.
    pub fn delete_key(&mut self, key: &[u8]) -> (r: Result<Option<Vec<u8>>, StoreError>)
        ensures
            match old(self)@ {
                None => r == Err::<Option<Vec<u8>>, StoreError>(StoreError::NotFound) && final(self)@ == old(self)@,
                Some(img) => if wf(img) {
                    &&& final(self)@ == Some(delete_image(img, key_digest(key@)))
                    &&& match r {
                        Ok(v) => v.deep_view() == last_live_value(img, key_digest(key@)),
                        Err(_) => false,
                    }
                } else {
                    r == Err::<Option<Vec<u8>>, StoreError>(StoreError::Corrupt) && final(self)@
                        == old(self)@
                },
            },
    {
        let (removed, newimg): (Option<Vec<u8>>, Vec<u8>) = match &self.image {
            None => {
                return Err(StoreError::NotFound);
            },
            Some(img) => {
                let d = digest_of_key(key);
                match crate::engine::delete_scan(img.as_slice(), d.as_slice()) {
                    Err(e) => {
                        return Err(e);
                    },
                    Ok(ds) => (ds.removed, ds.image),
                }
            },
        };
        self.image = Some(newimg);
        Ok(removed)
    }

    /// Upserts a key: writes nothing when the stored value already equals
    /// the new one, else tombstones the stored value and appends a fresh
    /// record; creates the backing image when none exists.  Returns the byte
    /// count written.
    pub fn write_key_val(&mut self, key: &[u8], val: &[u8]) -> (r: Result<usize, StoreError>)
        requires
            val@.len() <= usize::MAX - 41,
        ensures
            ({
                let img0 = match old(self)@ {
                    Some(i) => i,
                    None => Seq::<u8>::empty(),
                };
                let kd = key_digest(key@);
                &&& (r is Ok <==> match scan_read(img0, kd) {
                    ReadOutcome::Found { value: cur } => cur == val@ || wf(img0),
                    ReadOutcome::Absent => true,
                    ReadOutcome::Corrupt => false,
                })
                &&& match r {
                    Ok(n) => final(self)@ == Some(upsert_image_spec(img0, kd, val@)) && n
                        == upsert_written(img0, kd, val@),
                    Err(e) => e == StoreError::Corrupt && final(self)@ == old(self)@,
                }
            }),
    {
        let d = digest_of_key(key);
        let (newimg, n): (Vec<u8>, usize) = match &self.image {
            None => {
                let rec = crate::codec::encode_record(d.as_slice(), val);
                proof {
                    assert(scan_read(Seq::<u8>::empty(), key_digest(key@)) is Absent);
                    assert(Seq::<u8>::empty() + rec@ =~= rec@);
                }
                let n = rec.len();
                (rec, n)
            },
            Some(img) => {
                match crate::engine::upsert_image(img.as_slice(), d.as_slice(), val) {
                    Err(e) => {
                        return Err(e);
                    },
                    Ok(p) => p,
                }
            },
        };
        self.image = Some(newimg);
        Ok(n)
    }

    /// Compacts the backing image: only the latest live record of each
    /// digest remains, in file order.  Succeeds with `None`; fails with
    /// `NotFound` when the backing file does not exist, which callers treat
    /// as nothing to do.
    pub fn compact(&mut self) -> (r: Result<Option<Vec<u8>>, StoreError>)
        ensures
            match old(self)@ {
                None => r == Err::<Option<Vec<u8>>, StoreError>(StoreError::NotFound) && final(self)@ == old(self)@,
                Some(img) => if wf(img) {
                    r == Ok::<Option<Vec<u8>>, StoreError>(None) && final(self)@ == Some(
                        compact_spec(img),
                    )
                } else {
                    r == Err::<Option<Vec<u8>>, StoreError>(StoreError::Corrupt) && final(self)@
                        == old(self)@
                },
            },
    {
        let newimg: Vec<u8> = match &self.image {
            None => {
                return Err(StoreError::NotFound);
            },
            Some(img) => {
                match crate::engine::compact_image(img.as_slice()) {
                    Err(e) => {
                        return Err(e);
                    },
                    Ok(out) => out,
                }
            },
        };
        self.image = Some(newimg);
        Ok(None)
    }

    /// Counts the records of the backing image.
    pub fn record_count(&self) -> (r: Result<usize, StoreError>)
        ensures
            match self@ {
                None => r == Err::<usize, StoreError>(StoreError::NotFound),
                Some(img) => if wf(img) {
                    match r {
                        Ok(n) => n == count_records(img),
                        Err(_) => false,
                    }
                } else {
                    r == Err::<usize, StoreError>(StoreError::Corrupt)
                },
            },
    {
        match &self.image {
            None => Err(StoreError::NotFound),
            Some(img) => crate::engine::record_count(img.as_slice()),
        }
    }
}

/// The size of the store's backing image in bytes; zero when the backing
/// file does not exist.  What the surrounding program reports before and
/// after it runs.
pub fn size(store: &Store) -> (n: usize)
    ensures
        match store@ {
            Some(img) => n == img.len(),
            None => n == 0,
        },
{
    match store.image() {
        Some(img) => img.len(),
        None => 0,
    }
}

} // verus!
