//! The line-based exchange with the update server: the two requests, the
//! header/body boundary, and the version-check body.
use vstd::prelude::*;
use vstd::string::StringSliceAdditionalSpecFns;
use crate::ota::Error;
use crate::semver::{semver_of, version_gt, SemVer};
use crate::text::{append_bytes, copy_range, find_byte, find_from, parse_u32, parse_u32_digits, skip_space_from, trim_end_from, trimmed};

verus! {

/// Capacity of the buffer that must hold a response's headers.
pub const HEADER_BUFFER_SIZE: usize = 256;

/// What the version check reports about the newest image.
#[derive(Debug, Clone, Copy, PartialEq, Eq)]
pub struct VersionInfo {
    pub version: SemVer,
    pub crc32: u32,
    /// Image size in bytes; flash offsets are 32-bit.
    pub size: u32,
}

/// Outcome of comparing the served version with the running one.
#[derive(Debug, Clone, Copy, PartialEq, Eq)]
pub enum Decision {
    /// Nothing newer, or freshness cannot be told: skip this cycle.
    Skip,
    /// A strictly newer image is served.
    Update(VersionInfo),
}

/// `"\r\n\r\n"` starts at `i`.
pub open spec fn is_boundary_at(s: Seq<u8>, i: int) -> bool {
    0 <= i && i + 4 <= s.len() && s[i] == 13u8 && s[i + 1] == 10u8 && s[i + 2] == 13u8 && s[i + 3]
        == 10u8
}

/// First start of `"\r\n\r\n"` at or after `i`.
pub open spec fn boundary_from(s: Seq<u8>, i: int) -> Option<int>
    decreases s.len() - i,
{
    if i < 0 || i + 4 > s.len() {
        None
    } else if is_boundary_at(s, i) {
        Some(i)
    } else {
        boundary_from(s, i + 1)
    }
}

/// Where the body starts: just past the first `"\r\n\r\n"`.
pub open spec fn header_end(s: Seq<u8>) -> Option<int> {
    match boundary_from(s, 0) {
        Some(p) => Some(p + 4),
        None => None,
    }
}

/// End of the line that starts at `start`: the next `\n`, or the end.
pub open spec fn line_end(body: Seq<u8>, start: int) -> int {
    match find_from(body, 10u8, start) {
        Some(k) => k,
        None => body.len() as int,
    }
}

/// A decimal field: surrounding whitespace is ignored.
pub open spec fn number_field(s: Seq<u8>) -> Option<u32> {
    parse_u32(trimmed(s))
}

/// The decision a version-check body leads to, given the running version.
/// Line one is the served version; lines two and three, the CRC-32 and the
/// size, are read only when that version is strictly newer.
pub open spec fn decision_of(body: Seq<u8>, local: Option<SemVer>) -> Result<Decision, Error> {
    let e1 = line_end(body, 0);
    match (semver_of(body.subrange(0, e1)), local) {
        (Some(remote), Some(running)) => if !version_gt(remote, running) {
            Ok(Decision::Skip)
        } else if e1 >= body.len() {
            Err(Error::Info)
        } else {
            let e2 = line_end(body, e1 + 1);
            if e2 >= body.len() {
                Err(Error::Info)
            } else {
                let e3 = line_end(body, e2 + 1);
                match (
                    number_field(body.subrange(e1 + 1, e2)),
                    number_field(body.subrange(e2 + 1, e3)),
                ) {
                    (Some(crc32), Some(size)) => Ok(
                        Decision::Update(VersionInfo { version: remote, crc32, size }),
                    ),
                    _ => Err(Error::Info),
                }
            }
        },
        _ => Ok(Decision::Skip),
    }
}

/// The request for the version-check body.
pub open spec fn version_request_bytes(device_id: Seq<u8>, host: Seq<u8>) -> Seq<u8> {
    "GET /version?device=".spec_bytes() + device_id + " HTTP/1.1\r\nHost: ".spec_bytes() + host
        + "\r\nConnection: close\r\n\r\n".spec_bytes()
}

/// The request for the firmware image.
pub open spec fn firmware_request_bytes(device_id: Seq<u8>, host: Seq<u8>) -> Seq<u8> {
    "GET /firmware?device=".spec_bytes() + device_id + " HTTP/1.1\r\nHost: ".spec_bytes() + host
        + "\r\nConnection: close\r\n\r\n".spec_bytes()
}

/// Builds the version-check request for `device_id` on `host`.
pub fn version_request(device_id: &str, host: &str) -> (r: Vec<u8>)
    ensures
        r@ == version_request_bytes(device_id.spec_bytes(), host.spec_bytes()),
{
    let mut out: Vec<u8> = Vec::new();
    append_bytes(&mut out, "GET /version?device=".as_bytes());
    append_bytes(&mut out, device_id.as_bytes());
    append_bytes(&mut out, " HTTP/1.1\r\nHost: ".as_bytes());
    append_bytes(&mut out, host.as_bytes());
    append_bytes(&mut out, "\r\nConnection: close\r\n\r\n".as_bytes());
    out
}

/// Builds the firmware request for `device_id` on `host`.
pub fn firmware_request(device_id: &str, host: &str) -> (r: Vec<u8>)
    ensures
        r@ == firmware_request_bytes(device_id.spec_bytes(), host.spec_bytes()),
{
    let mut out: Vec<u8> = Vec::new();
    append_bytes(&mut out, "GET /firmware?device=".as_bytes());
    append_bytes(&mut out, device_id.as_bytes());
    append_bytes(&mut out, " HTTP/1.1\r\nHost: ".as_bytes());
    append_bytes(&mut out, host.as_bytes());
    append_bytes(&mut out, "\r\nConnection: close\r\n\r\n".as_bytes());
    out
}

/// Index just past the first `"\r\n\r\n"` in `buf`, if there is one.
pub fn find_header_end(buf: &[u8]) -> (r: Option<usize>)
    ensures
        match r {
            Some(k) => header_end(buf@) == Some(k as int),
            None => header_end(buf@) is None,
        },
        r matches Some(k) ==> 4 <= k <= buf@.len(),
{
    let n = buf.len();
    if n < 4 {
        return None;
    }
    let mut i: usize = 0;
    while i <= n - 4
        invariant
            n == buf@.len(),
            n >= 4,
            boundary_from(buf@, i as int) == boundary_from(buf@, 0),
        decreases n - i,
    {
        if buf[i] == 13 && buf[i + 1] == 10 && buf[i + 2] == 13 && buf[i + 3] == 10 {
            return Some(i + 4);
        }
        i += 1;
    }
    None
}

/// A decimal number on a line, with an optional `+`, surrounding whitespace
/// ignored as `str::trim` does; `Info` if the line holds anything else or
/// the value exceeds `u32`.
pub fn parse_number(bytes: &[u8]) -> (r: Result<u32, Error>)
    ensures
        r == match number_field(bytes@) {
            Some(n) => Ok::<u32, Error>(n),
            None => Err(Error::Info),
        },
{
    let lo = skip_space_from(bytes, 0);
    let hi = trim_end_from(bytes, lo, bytes.len());
    let t = copy_range(bytes, lo, hi);
    match parse_u32_digits(t.as_slice()) {
        Some(n) => Ok(n),
        None => Err(Error::Info),
    }
}

fn line_end_from(body: &[u8], start: usize) -> (r: usize)
    requires
        start <= body@.len(),
    ensures
        r as int == line_end(body@, start as int),
        start <= r <= body@.len(),
{
    match find_byte(body, 10, start) {
        Some(k) => k,
        None => body.len(),
    }
}

/// Reads a version-check body and decides whether to update. A served or
/// running version that does not parse, or one not strictly newer, skips
/// the cycle; a newer one with a missing or malformed CRC-32 or size line
/// is an `Info` error.
pub fn decide_update(body: &[u8], local: &Option<SemVer>) -> (r: Result<Decision, Error>)
    ensures
        r == decision_of(body@, *local),
{
    let n = body.len();
    let e1 = line_end_from(body, 0);
    let line1 = copy_range(body, 0, e1);
    let remote = SemVer::parse_bytes(line1.as_slice());
    let (remote, running) = match (remote, local) {
        (Some(a), Some(b)) => (a, b),
        _ => return Ok(Decision::Skip),
    };
    if !remote.is_greater_than(running) {
        return Ok(Decision::Skip);
    }
    if e1 >= n {
        return Err(Error::Info);
    }
    let e2 = line_end_from(body, e1 + 1);
    if e2 >= n {
        return Err(Error::Info);
    }
    let e3 = line_end_from(body, e2 + 1);
    let crc = parse_number(copy_range(body, e1 + 1, e2).as_slice());
    let size = parse_number(copy_range(body, e2 + 1, e3).as_slice());
    match (crc, size) {
        (Ok(crc32), Ok(size)) => Ok(Decision::Update(VersionInfo { version: remote, crc32, size })),
        _ => Err(Error::Info),
    }
}

} // verus!
