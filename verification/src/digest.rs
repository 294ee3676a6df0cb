//! Key fingerprinting.
//!
//! Every record stores its key as a fixed-width slot: the MD5 digest of the
//! key bytes, rendered as 32 lowercase hexadecimal ASCII bytes.  The digest
//! itself comes from the `md5` crate; the hexadecimal rendering is verified
//! here.

use md5::Digest;
use md5::Md5;
use vstd::prelude::*;
use vstd::string::StringExecFns;
use vstd::string::StringSliceAdditionalSpecFns;

verus! {

/// Number of bytes in a raw MD5 digest.
pub const MD5_LEN: usize = 16;

/// Number of bytes in a rendered key digest, the fixed width of every
/// record's key slot.
pub const DIGEST_LEN: usize = 32;

/// The 16-byte MD5 digest of a byte string, a function of the input bytes
/// alone.
pub uninterp spec fn md5_of(data: Seq<u8>) -> Seq<u8>;

/// Relies on the md5 crate's `Md5` hasher (`Digest::digest`): returns the
/// 16-byte MD5 digest of the input, a deterministic function of the input
/// bytes alone.
#[verifier::external_body]
fn md5_digest(data: &[u8]) -> (r: Vec<u8>)
    ensures
        r@ == md5_of(data@),
        r@.len() == 16,
{
    Md5::digest(data).to_vec()
}

/// A hexadecimal digit (below 16) as its lowercase ASCII byte.
pub open spec fn hex_digit(n: u8) -> u8 {
    if n < 10 {
        (n + 48) as u8
    } else {
        (n + 87) as u8
    }
}

/// Lowercase hexadecimal rendering of a byte string: two ASCII digits per
/// byte, high nibble first.
pub open spec fn hex_bytes(s: Seq<u8>) -> Seq<u8> {
    Seq::new(
        2 * s.len(),
        |i: int|
            if i % 2 == 0 {
                hex_digit((s[i / 2] / 16) as u8)
            } else {
                hex_digit((s[i / 2] % 16) as u8)
            },
    )
}

/// The key slot stored in a record: the MD5 digest of the key bytes in
/// lowercase hexadecimal, 32 bytes.
pub open spec fn key_digest(key: Seq<u8>) -> Seq<u8> {
    hex_bytes(md5_of(key))
}

fn hex_digit_ex(n: u8) -> (r: u8)
    requires
        n < 16,
    ensures
        r == hex_digit(n),
{
    if n < 10 {
        n + 48
    } else {
        n + 87
    }
}

/// Renders a byte string as lowercase hexadecimal bytes.
fn hex_encode(bytes: &[u8]) -> (r: Vec<u8>)
    ensures
        r@ == hex_bytes(bytes@),
{
    let mut r: Vec<u8> = Vec::new();
    let mut i: usize = 0;
    while i < bytes.len()
        invariant
            i <= bytes@.len(),
            r@.len() == 2 * i,
            forall|j: int| 0 <= j < r@.len() ==> r@[j] == hex_bytes(bytes@)[j],
        decreases bytes@.len() - i,
    {
        let b = bytes[i];
        let hi = b / 16;
        let lo = b % 16;
        assert(hi < 16 && lo < 16);
        r.push(hex_digit_ex(hi));
        r.push(hex_digit_ex(lo));
        i += 1;
    }
    assert(r@ =~= hex_bytes(bytes@));
    r
}

/// The record key slot for a key: `hex(md5(key))`, 32 bytes.
pub fn digest_of_key(key: &[u8]) -> (r: Vec<u8>)
    ensures
        r@ == key_digest(key@),
        r@.len() == 32,
{
    let md = md5_digest(key);
    hex_encode(md.as_slice())
}

/// A hexadecimal digit (below 16) as its lowercase character.
pub open spec fn hex_char(n: u8) -> char {
    seq!['0', '1', '2', '3', '4', '5', '6', '7', '8', '9', 'a', 'b', 'c', 'd', 'e', 'f'][n as int]
}

/// Lowercase hexadecimal rendering of a byte string as text.
pub open spec fn hex_chars(s: Seq<u8>) -> Seq<char> {
    Seq::new(
        2 * s.len(),
        |i: int|
            if i % 2 == 0 {
                hex_char((s[i / 2] / 16) as u8)
            } else {
                hex_char((s[i / 2] % 16) as u8)
            },
    )
}

fn append_hex_char(s: &mut String, d: u8)
    requires
        d < 16,
    ensures
        final(s)@ == old(s)@.push(hex_char(d)),
{
    match d {
        0 => {
            proof {
                reveal_strlit("0");
            }
            s.append("0");
        },
        1 => {
            proof {
                reveal_strlit("1");
            }
            s.append("1");
        },
        2 => {
            proof {
                reveal_strlit("2");
            }
            s.append("2");
        },
        3 => {
            proof {
                reveal_strlit("3");
            }
            s.append("3");
        },
        4 => {
            proof {
                reveal_strlit("4");
            }
            s.append("4");
        },
        5 => {
            proof {
                reveal_strlit("5");
            }
            s.append("5");
        },
        6 => {
            proof {
                reveal_strlit("6");
            }
            s.append("6");
        },
        7 => {
            proof {
                reveal_strlit("7");
            }
            s.append("7");
        },
        8 => {
            proof {
                reveal_strlit("8");
            }
            s.append("8");
        },
        9 => {
            proof {
                reveal_strlit("9");
            }
            s.append("9");
        },
        10 => {
            proof {
                reveal_strlit("a");
            }
            s.append("a");
        },
        11 => {
            proof {
                reveal_strlit("b");
            }
            s.append("b");
        },
        12 => {
            proof {
                reveal_strlit("c");
            }
            s.append("c");
        },
        13 => {
            proof {
                reveal_strlit("d");
            }
            s.append("d");
        },
        14 => {
            proof {
                reveal_strlit("e");
            }
            s.append("e");
        },
        15 => {
            proof {
                reveal_strlit("f");
            }
            s.append("f");
        },
        _ => {
            assert(false);
        },
    }
}

/// The key fingerprint as text: the MD5 digest of the key's UTF-8 bytes in
/// lowercase hexadecimal, 32 characters.  This is the text whose bytes fill a
/// record's key slot.
pub fn hash_key(key: &str) -> (r: String)
    ensures
        r@ == hex_chars(md5_of(key.spec_bytes())),
        r@.len() == 32,
{
    let md = md5_digest(key.as_bytes());
    let mut out = String::new();
    let mut i: usize = 0;
    while i < md.len()
        invariant
            md@.len() == 16,
            md@ == md5_of(key.spec_bytes()),
            i <= 16,
            out@.len() == 2 * i,
            forall|j: int| 0 <= j < out@.len() ==> out@[j] == hex_chars(md@)[j],
        decreases 16 - i,
    {
        let b = md[i];
        append_hex_char(&mut out, b / 16);
        append_hex_char(&mut out, b % 16);
        i += 1;
    }
    assert(out@ =~= hex_chars(md@));
    out
}

} // verus!
