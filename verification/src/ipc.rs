//! IPC endpoint names and message framing.
//!
//! Every message on the client–server socket is a 4-byte little-endian
//! length followed by the serialized payload. Connecting, serializing and the
//! reader and writer tasks are the application's; the library names the
//! endpoint and frames and unframes the bytes.

use vstd::prelude::*;
use vstd::string::StringExecFns;
use crate::text::{decimal, decimal_chars, string_from_chars};

verus! {

/// The socket path: `<runtime dir>/nexterm.sock`, the runtime directory
/// being `$XDG_RUNTIME_DIR` when set and `/run/user/<uid>` otherwise.
pub open spec fn spec_unix_socket_path(runtime_dir: Option<Seq<char>>, uid: u32) -> Seq<char> {
    let dir = match runtime_dir {
        Some(d) => d,
        None => seq!['/', 'r', 'u', 'n', '/', 'u', 's', 'e', 'r', '/'] + decimal(uid as nat),
    };
    dir + seq!['/', 'n', 'e', 'x', 't', 'e', 'r', 'm', '.', 's', 'o', 'c', 'k']
}

/// The default Unix socket path for the runtime directory the environment
/// names (if any) and the user's id.
pub fn unix_socket_path(runtime_dir: Option<&str>, uid: u32) -> (r: String)
    ensures
        r@ == spec_unix_socket_path(
            match runtime_dir {
                Some(d) => Some(d@),
                None => None,
            },
            uid,
        ),
{
    proof {
        reveal_strlit("/run/user/");
        reveal_strlit("/nexterm.sock");
    }
    let mut path = match runtime_dir {
        Some(d) => String::from_str(d),
        None => {
            let mut p = String::from_str("/run/user/");
            let digits = decimal_chars(uid as u64);
            p.append(string_from_chars(&digits).as_str());
            p
        },
    };
    path.append("/nexterm.sock");
    path
}

/// The pipe name: `\\.\pipe\nexterm-<user>`, the user being `%USERNAME%` when
/// set and `nexterm` otherwise.
pub open spec fn spec_named_pipe_name(username: Option<Seq<char>>) -> Seq<char> {
    seq!['\\', '\\', '.', '\\', 'p', 'i', 'p', 'e', '\\', 'n', 'e', 'x', 't', 'e', 'r', 'm', '-'] + match username {
        Some(u) => u,
        None => seq!['n', 'e', 'x', 't', 'e', 'r', 'm'],
    }
}

/// The default named pipe for the user name the environment gives (if any).
pub fn named_pipe_name(username: Option<&str>) -> (r: String)
    ensures
        r@ == spec_named_pipe_name(
            match username {
                Some(u) => Some(u@),
                None => None,
            },
        ),
{
    proof {
        reveal_strlit("\\\\.\\pipe\\nexterm-");
        reveal_strlit("nexterm");
    }
    let mut name = String::from_str("\\\\.\\pipe\\nexterm-");
    match username {
        Some(u) => name.append(u),
        None => name.append("nexterm"),
    }
    name
}

/// The little-endian bytes of `n`.
pub open spec fn le_bytes(n: u32) -> Seq<u8> {
    seq![(n % 256) as u8, ((n / 256) % 256) as u8, ((n / 65536) % 256) as u8, (n / 16777216) as u8]
}

/// The value of four little-endian bytes.
pub open spec fn le_value(b: Seq<u8>) -> int {
    b[0] + 256 * b[1] + 65536 * b[2] + 16777216 * b[3]
}

/// Frame a payload: its length as a little-endian `u32` (the length is cast
/// to `u32`, so a payload of 4 GiB or more gets a wrapped length), then the
/// payload.
pub fn encode_frame(payload: &[u8]) -> (r: Vec<u8>)
    ensures
        r@ == le_bytes(payload@.len() as u32) + payload@,
{
    let len = payload.len() as u32;
    let mut r: Vec<u8> = Vec::new();
    r.push((len % 256) as u8);
    r.push(((len / 256) % 256) as u8);
    r.push(((len / 65536) % 256) as u8);
    r.push((len / 16777216) as u8);
    let mut i: usize = 0;
    while i < payload.len()
        invariant
            i <= payload@.len(),
            r@ == le_bytes(payload@.len() as u32) + payload@.take(i as int),
        decreases payload.len() - i,
    {
        r.push(payload[i]);
        assert(payload@.take(i + 1) =~= payload@.take(i as int).push(payload@[i as int]));
        i = i + 1;
    }
    assert(payload@.take(payload@.len() as int) =~= payload@);
    r
}

/// The payload length a 4-byte prefix announces (`u32::from_le_bytes`).
pub fn frame_len(prefix: [u8; 4]) -> (n: u32)
    ensures
        n as int == le_value(prefix@),
{
    let b0 = prefix[0] as u32;
    let b1 = prefix[1] as u32;
    let b2 = prefix[2] as u32;
    let b3 = prefix[3] as u32;
    b0 + 256 * b1 + 65536 * b2 + 16777216 * b3
}

/// Reading a frame's prefix gives back the length written into it.
pub proof fn lemma_frame_len_round_trip(n: u32)
    ensures
        le_value(le_bytes(n)) == n,
{
    let b = le_bytes(n);
    assert(b[0] == n % 256);
    assert(b[1] == (n / 256) % 256);
    assert(b[2] == (n / 65536) % 256);
    assert(b[3] == n / 16777216);
    assert(n % 256 + 256 * ((n / 256) % 256) + 65536 * ((n / 65536) % 256) + 16777216 * (n / 16777216) == n) by (nonlinear_arith);
}

} // verus!
