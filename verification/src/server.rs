//! The TCP front end's protocol, verified apart from the sockets.
//!
//! A connection worker reads one CR/LF-terminated line at a time and speaks
//! a plain-text `get|set|del` protocol backed by the store.  Everything the
//! worker decides — how a line parses, what the store does, which bytes go
//! back — is here; the accept loop, the sockets and the worker threads live
//! in the surrounding program, which also polls the compaction flag between
//! connections and asks `next_action` what to do.

use crate::codec::wf;
use crate::digest::key_digest;
use crate::engine::delete_image;
use crate::engine::last_live_value;
use crate::engine::scan_read;
use crate::engine::upsert_image_spec;
use crate::engine::upsert_written;
use crate::engine::ReadOutcome;
use crate::engine::StoreError;
use crate::store::Store;
use vstd::prelude::*;
use vstd::string::StringSliceAdditionalSpecFns;

verus! {

/// A line terminator on the wire: carriage return or line feed.
pub open spec fn is_terminator(b: u8) -> bool {
    b == 13 || b == 10
}

/// How many bytes the first line of a buffer holds, before any terminator.
pub open spec fn line_len(s: Seq<u8>) -> int
    decreases s.len(),
{
    if s.len() == 0 {
        0
    } else if is_terminator(s[0]) {
        0
    } else {
        1 + line_len(s.skip(1))
    }
}

/// The index of the first space, or the length when there is none.
pub open spec fn first_space(s: Seq<u8>) -> int
    decreases s.len(),
{
    if s.len() == 0 {
        0
    } else if s[0] == 32 {
        0
    } else {
        1 + first_space(s.skip(1))
    }
}

proof fn lemma_line_len_bounds(s: Seq<u8>)
    ensures
        0 <= line_len(s) <= s.len(),
    decreases s.len(),
{
    if s.len() > 0 && !is_terminator(s[0]) {
        lemma_line_len_bounds(s.skip(1));
    }
}

proof fn lemma_first_space_bounds(s: Seq<u8>)
    ensures
        0 <= first_space(s) <= s.len(),
    decreases s.len(),
{
    if s.len() > 0 && s[0] != 32 {
        lemma_first_space_bounds(s.skip(1));
    }
}

proof fn lemma_line_len_step(s: Seq<u8>, i: int)
    requires
        0 <= i <= s.len(),
        forall|j: int| 0 <= j < i ==> !is_terminator(#[trigger] s[j]),
    ensures
        line_len(s) == i + line_len(s.skip(i)),
    decreases i,
{
    if i > 0 {
        lemma_line_len_step(s.skip(1), i - 1);
        assert(s.skip(1).skip(i - 1) =~= s.skip(i));
        assert(forall|j: int|
            0 <= j < i - 1 ==> !is_terminator(#[trigger] s.skip(1)[j]) == !is_terminator(
                s[j + 1],
            ));
    } else {
        assert(s.skip(0) =~= s);
    }
}

proof fn lemma_first_space_step(s: Seq<u8>, i: int)
    requires
        0 <= i <= s.len(),
        forall|j: int| 0 <= j < i ==> #[trigger] s[j] != 32,
    ensures
        first_space(s) == i + first_space(s.skip(i)),
    decreases i,
{
    if i > 0 {
        lemma_first_space_step(s.skip(1), i - 1);
        assert(s.skip(1).skip(i - 1) =~= s.skip(i));
    } else {
        assert(s.skip(0) =~= s);
    }
}

/// Finds the length of the buffer's first line.
fn find_line_len(buf: &[u8]) -> (n: usize)
    ensures
        n == line_len(buf@),
        n <= buf@.len(),
{
    let mut i: usize = 0;
    while i < buf.len()
        invariant
            i <= buf@.len(),
            forall|j: int| 0 <= j < i ==> !is_terminator(#[trigger] buf@[j]),
        decreases buf@.len() - i,
    {
        let b = buf[i];
        if b == 13 || b == 10 {
            proof {
                lemma_line_len_step(buf@, i as int);
            }
            return i;
        }
        i += 1;
    }
    proof {
        lemma_line_len_step(buf@, i as int);
    }
    i
}

/// Finds the index of the first space, or the length when there is none.
fn find_first_space(buf: &[u8]) -> (n: usize)
    ensures
        n == first_space(buf@),
        n <= buf@.len(),
{
    let mut i: usize = 0;
    while i < buf.len()
        invariant
            i <= buf@.len(),
            forall|j: int| 0 <= j < i ==> #[trigger] buf@[j] != 32,
        decreases buf@.len() - i,
    {
        if buf[i] == 32 {
            proof {
                lemma_first_space_step(buf@, i as int);
            }
            return i;
        }
        i += 1;
    }
    proof {
        lemma_first_space_step(buf@, i as int);
    }
    i
}

/// Whether a line starts with the three-letter command `c0 c1 c2` and a
/// space.
pub open spec fn is_cmd(line: Seq<u8>, c0: u8, c1: u8, c2: u8) -> bool {
    line.len() >= 4 && line[0] == c0 && line[1] == c1 && line[2] == c2 && line[3] == 32
}

/// A request line, parsed.
pub enum RequestSpec {
    /// `get KEY`: exactly two tokens.
    Get(Seq<u8>),
    /// `set KEY VALUE`: the value is everything after the second space,
    /// spaces included.
    Upsert(Seq<u8>, Seq<u8>),
    /// `del KEY`: exactly two tokens.
    Del(Seq<u8>),
    /// Anything else: answered with the usage banner.
    Invalid,
    /// An empty line: not answered at all.
    Empty,
}

/// How one buffer parses: take the first line, split on spaces, and read
/// the command word.
pub open spec fn parse_spec(buf: Seq<u8>) -> RequestSpec {
    let line = buf.take(line_len(buf));
    let rest = line.skip(4);
    if line.len() == 0 {
        RequestSpec::Empty
    } else if is_cmd(line, 103, 101, 116) && first_space(rest) == rest.len() {
        RequestSpec::Get(rest)
    } else if is_cmd(line, 100, 101, 108) && first_space(rest) == rest.len() {
        RequestSpec::Del(rest)
    } else if is_cmd(line, 115, 101, 116) && first_space(rest) < rest.len() {
        RequestSpec::Upsert(rest.take(first_space(rest)), rest.skip(first_space(rest) + 1))
    } else {
        RequestSpec::Invalid
    }
}

/// A request line as the worker handles it.
pub enum Request {
    /// Read this key.
    Get { key: Vec<u8> },
    /// Upsert this key with this value.
    Upsert { key: Vec<u8>, value: Vec<u8> },
    /// Delete this key.
    Del { key: Vec<u8> },
    /// Answer with the usage banner.
    Invalid,
    /// Answer nothing.
    Empty,
}

/// Parses one buffer into a request.
pub fn parse_request(buf: &[u8]) -> (r: Request)
    ensures
        match r {
            Request::Get { key } => parse_spec(buf@) == RequestSpec::Get(key@),
            Request::Upsert { key, value } => parse_spec(buf@) == RequestSpec::Upsert(key@, value@),
            Request::Del { key } => parse_spec(buf@) == RequestSpec::Del(key@),
            Request::Invalid => parse_spec(buf@) is Invalid,
            Request::Empty => parse_spec(buf@) is Empty,
        },
{
    let n = find_line_len(buf);
    let line = vstd::slice::slice_subrange(buf, 0, n);
    let ghost line_s = buf@.take(line_len(buf@));
    proof {
        assert(line@ =~= line_s);
    }
    if n == 0 {
        return Request::Empty;
    }
    if n < 4 || line[3] != 32 {
        assert(!is_cmd(line_s, 103, 101, 116));
        assert(!is_cmd(line_s, 100, 101, 108));
        assert(!is_cmd(line_s, 115, 101, 116));
        return Request::Invalid;
    }
    let rest = vstd::slice::slice_subrange(line, 4, n);
    let ghost rest_s = line_s.skip(4);
    proof {
        assert(rest@ =~= rest_s);
    }
    let sp = find_first_space(rest);
    let c0 = line[0];
    let c1 = line[1];
    let c2 = line[2];
    if c0 == 103 && c1 == 101 && c2 == 116 && sp == rest.len() {
        let key = vstd::slice::slice_to_vec(rest);
        return Request::Get { key };
    }
    if c0 == 100 && c1 == 101 && c2 == 108 && sp == rest.len() {
        let key = vstd::slice::slice_to_vec(rest);
        return Request::Del { key };
    }
    if c0 == 115 && c1 == 101 && c2 == 116 && sp < rest.len() {
        let key = vstd::slice::slice_to_vec(vstd::slice::slice_subrange(rest, 0, sp));
        let value = vstd::slice::slice_to_vec(vstd::slice::slice_subrange(rest, sp + 1, rest.len()));
        proof {
            assert(key@ =~= rest_s.take(first_space(rest_s)));
            assert(value@ =~= rest_s.skip(first_space(rest_s) + 1));
        }
        return Request::Upsert { key, value };
    }
    Request::Invalid
}

/// The two response terminators and banners, as bytes on the wire.
pub open spec fn crlf() -> Seq<u8> {
    "\r\n".spec_bytes()
}

/// The reply to a miss.
pub open spec fn no_match_resp() -> Seq<u8> {
    "*** no match found".spec_bytes() + crlf()
}

/// The reply carrying a stored value.
pub open spec fn value_resp(v: Seq<u8>) -> Seq<u8> {
    v + crlf()
}

/// The decimal rendering of a number, most significant digit first.
pub open spec fn dec_bytes(n: nat) -> Seq<u8>
    decreases n,
{
    if n < 10 {
        seq![(48 + n) as u8]
    } else {
        dec_bytes(n / 10).push((48 + n % 10) as u8)
    }
}

/// The reply to a successful upsert, carrying the byte count written.
pub open spec fn success_resp(n: nat) -> Seq<u8> {
    "*** success: wrote ".spec_bytes() + dec_bytes(n) + " bytes".spec_bytes() + crlf()
}

/// The reply to an unrecognized line: the invalid-command banner and the
/// usage text.
pub open spec fn invalid_resp() -> Seq<u8> {
    "*** invalid command\r\nUsage:\r\n<get> <key> | <set> <key> <value> | <del> <key>".spec_bytes()
        + crlf()
}

/// The reply to a storage error, carrying its description.
pub open spec fn error_resp(desc: Seq<u8>) -> Seq<u8> {
    "*** error: ".spec_bytes() + desc + crlf()
}

/// How a missing backing file is described to a client.
pub open spec fn not_found_desc() -> Seq<u8> {
    "No such file or directory".spec_bytes()
}

/// How a corrupt backing file is described to a client.
pub open spec fn corrupt_desc() -> Seq<u8> {
    "Input/output error".spec_bytes()
}

/// Describes a storage error in one line.
pub fn error_desc(e: &StoreError) -> (s: &'static str)
    ensures
        s.spec_bytes() == match e {
            StoreError::NotFound => not_found_desc(),
            StoreError::Corrupt => corrupt_desc(),
        },
{
    match e {
        StoreError::NotFound => "No such file or directory",
        StoreError::Corrupt => "Input/output error",
    }
}

/// Renders a number in decimal.
fn fmt_usize(n: usize) -> (r: Vec<u8>)
    ensures
        r@ == dec_bytes(n as nat),
    decreases n,
{
    if n < 10 {
        let mut r: Vec<u8> = Vec::new();
        r.push(48 + n as u8);
        assert(r@ =~= dec_bytes(n as nat));
        r
    } else {
        let mut r = fmt_usize(n / 10);
        r.push(48 + (n % 10) as u8);
        r
    }
}

fn append_str(dst: &mut Vec<u8>, s: &str)
    ensures
        final(dst)@ == old(dst)@ + s.spec_bytes(),
{
    let b = s.as_bytes();
    crate::codec::append_slice(dst, b);
}

/// Builds the miss reply.
pub fn resp_no_match() -> (r: Vec<u8>)
    ensures
        r@ == no_match_resp(),
{
    let mut r: Vec<u8> = Vec::new();
    append_str(&mut r, "*** no match found");
    append_str(&mut r, "\r\n");
    assert(r@ =~= no_match_resp());
    r
}

/// Builds the reply carrying a value.
pub fn resp_value(v: &[u8]) -> (r: Vec<u8>)
    ensures
        r@ == value_resp(v@),
{
    let mut r: Vec<u8> = Vec::new();
    crate::codec::append_slice(&mut r, v);
    append_str(&mut r, "\r\n");
    assert(r@ =~= value_resp(v@));
    r
}

/// Builds the upsert-success reply.
pub fn resp_success(n: usize) -> (r: Vec<u8>)
    ensures
        r@ == success_resp(n as nat),
{
    let mut r: Vec<u8> = Vec::new();
    append_str(&mut r, "*** success: wrote ");
    let digits = fmt_usize(n);
    crate::codec::append_slice(&mut r, digits.as_slice());
    append_str(&mut r, " bytes");
    append_str(&mut r, "\r\n");
    assert(r@ =~= success_resp(n as nat));
    r
}

/// Builds the invalid-command reply.
pub fn resp_invalid() -> (r: Vec<u8>)
    ensures
        r@ == invalid_resp(),
{
    let mut r: Vec<u8> = Vec::new();
    append_str(
        &mut r,
        "*** invalid command\r\nUsage:\r\n<get> <key> | <set> <key> <value> | <del> <key>",
    );
    append_str(&mut r, "\r\n");
    assert(r@ =~= invalid_resp());
    r
}

/// Builds the storage-error reply.
pub fn resp_error(desc: &str) -> (r: Vec<u8>)
    ensures
        r@ == error_resp(desc.spec_bytes()),
{
    let mut r: Vec<u8> = Vec::new();
    append_str(&mut r, "*** error: ");
    append_str(&mut r, desc);
    append_str(&mut r, "\r\n");
    assert(r@ =~= error_resp(desc.spec_bytes()));
    r
}

/// Handles one request line against the store: parse it, run it, and build
/// the reply the worker sends back, if any.
pub fn handle_request(store: &mut Store, buf: &[u8]) -> (reply: Option<Vec<u8>>)
    requires
        buf@.len() <= usize::MAX - 41,
    ensures
        ({
            let req = parse_spec(buf@);
            match req {
                RequestSpec::Empty => final(store)@ == old(store)@ && reply is None,
                RequestSpec::Invalid => final(store)@ == old(store)@ && match reply {
                    Some(rep) => rep@ == invalid_resp(),
                    None => false,
                },
                RequestSpec::Get(key) => final(store)@ == old(store)@ && match reply {
                    Some(rep) => match old(store)@ {
                        None => rep@ == error_resp(not_found_desc()),
                        Some(img) => match scan_read(img, key_digest(key)) {
                            ReadOutcome::Found { value } => rep@ == value_resp(value),
                            ReadOutcome::Absent => rep@ == no_match_resp(),
                            ReadOutcome::Corrupt => rep@ == error_resp(corrupt_desc()),
                        },
                    },
                    None => false,
                },
                RequestSpec::Del(key) => match reply {
                    Some(rep) => match old(store)@ {
                        None => rep@ == error_resp(not_found_desc()) && final(store)@ == old(
                            store,
                        )@,
                        Some(img) => if wf(img) {
                            &&& final(store)@ == Some(delete_image(img, key_digest(key)))
                            &&& rep@ == match last_live_value(img, key_digest(key)) {
                                Some(v) => value_resp(v),
                                None => no_match_resp(),
                            }
                        } else {
                            rep@ == error_resp(corrupt_desc()) && final(store)@ == old(store)@
                        },
                    },
                    None => false,
                },
                RequestSpec::Upsert(key, value) => match reply {
                    Some(rep) => {
                        let img0 = match old(store)@ {
                            Some(i) => i,
                            None => Seq::<u8>::empty(),
                        };
                        let kd = key_digest(key);
                        if (match scan_read(img0, kd) {
                            ReadOutcome::Found { value: cur } => cur == value || wf(img0),
                            ReadOutcome::Absent => true,
                            ReadOutcome::Corrupt => false,
                        }) {
                            &&& final(store)@ == Some(upsert_image_spec(img0, kd, value))
                            &&& rep@ == success_resp(upsert_written(img0, kd, value) as nat)
                        } else {
                            rep@ == error_resp(corrupt_desc()) && final(store)@ == old(store)@
                        }
                    },
                    None => false,
                },
            }
        }),
{
    match parse_request(buf) {
        Request::Empty => None,
        Request::Invalid => Some(resp_invalid()),
        Request::Get { key } => {
            match store.read_key(key.as_slice()) {
                Ok(Some(v)) => Some(resp_value(v.as_slice())),
                Ok(None) => Some(resp_no_match()),
                Err(e) => Some(resp_error(error_desc(&e))),
            }
        },
        Request::Del { key } => {
            match store.delete_key(key.as_slice()) {
                Ok(Some(v)) => Some(resp_value(v.as_slice())),
                Ok(None) => Some(resp_no_match()),
                Err(e) => Some(resp_error(error_desc(&e))),
            }
        },
        Request::Upsert { key, value } => {
            proof {
                lemma_line_len_bounds(buf@);
                lemma_first_space_bounds(buf@.take(line_len(buf@)).skip(4));
            }
            match store.write_key_val(key.as_slice(), value.as_slice()) {
                Ok(n) => Some(resp_success(n)),
                Err(e) => Some(resp_error(error_desc(&e))),
            }
        },
    }
}

/// The TCP front end: the port it listens on and the backing file it
/// serves.  The accept loop itself performs socket and thread work and
/// lives in the surrounding program.
pub struct Server {
    /// The TCP port to bind on the loopback interface.
    pub port: u16,
    /// The path of the backing file.
    pub filepath: String,
}

/// What the accept loop does next.
#[derive(Clone, Copy, Debug, PartialEq, Eq, Structural)]
pub enum ServerAction {
    /// The compaction flag was set by the signal handler: clear it and
    /// compact the backing file before accepting again.
    Compact,
    /// Accept the next connection and hand it to a worker.
    Serve,
}

/// The accept loop's decision at each poll of the compaction flag: compact
/// exactly when the flag is set, otherwise keep serving.
pub fn next_action(compact_signaled: bool) -> (a: ServerAction)
    ensures
        a == (if compact_signaled {
            ServerAction::Compact
        } else {
            ServerAction::Serve
        }),
{
    if compact_signaled {
        ServerAction::Compact
    } else {
        ServerAction::Serve
    }
}

} // verus!
