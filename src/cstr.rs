//! NUL-terminated copies of configuration strings, for C interfaces that
//! take PEM material.
use vstd::prelude::*;
use vstd::string::StringSliceAdditionalSpecFns;
use crate::text::copy_range;

verus! {

/// Largest NUL-terminated string `build_trimmed_c_str_vec` builds, in bytes.
pub const TLS_BUFFER_MAX: usize = 16640;

/// Why a C string could not be built.
#[derive(Debug, Clone, Copy, PartialEq, Eq, Structural)]
pub enum Error {
    /// The string and its NUL do not fit.
    BufferOverflow,
    /// The string holds a NUL byte.
    InteriorNul,
}

/// First index at or after `i` that does not hold a newline.
pub open spec fn skip_newlines(s: Seq<u8>, i: int) -> int
    decreases s.len() - i,
{
    if 0 <= i < s.len() && s[i] == 10u8 {
        skip_newlines(s, i + 1)
    } else {
        i
    }
}

/// End of `s[lo..j]` once trailing newlines are dropped.
pub open spec fn end_before_newlines(s: Seq<u8>, lo: int, j: int) -> int
    decreases j,
{
    if j > lo && j > 0 && s[j - 1] == 10u8 {
        end_before_newlines(s, lo, j - 1)
    } else {
        j
    }
}

/// `s` without leading and trailing newlines.
pub open spec fn trim_newlines(s: Seq<u8>) -> Seq<u8> {
    let lo = skip_newlines(s, 0);
    s.subrange(lo, end_before_newlines(s, lo, s.len() as int))
}

fn trimmed_range(s: &[u8]) -> (r: (usize, usize))
    ensures
        r.0 <= r.1 <= s@.len(),
        s@.subrange(r.0 as int, r.1 as int) == trim_newlines(s@),
{
    let mut lo: usize = 0;
    while lo < s.len() && s[lo] == 10
        invariant
            lo <= s@.len(),
            skip_newlines(s@, lo as int) == skip_newlines(s@, 0),
        decreases s.len() - lo,
    {
        lo += 1;
    }
    let mut hi: usize = s.len();
    while hi > lo && s[hi - 1] == 10
        invariant
            lo <= hi <= s@.len(),
            end_before_newlines(s@, lo as int, hi as int) == end_before_newlines(
                s@,
                lo as int,
                s@.len() as int,
            ),
        decreases hi,
    {
        hi -= 1;
    }
    (lo, hi)
}

/// `s` with surrounding newlines trimmed, followed by a NUL, if that fits
/// in `capacity` bytes and the trimmed text holds no NUL.
pub fn write_trimmed_c_str(s: &str, capacity: usize) -> (r: Result<Vec<u8>, Error>)
    ensures
        ({
            let t = trim_newlines(s.spec_bytes());
            match r {
                Ok(v) => t.len() + 1 <= capacity && !t.contains(0u8) && v@ == t.push(0u8),
                Err(e) => if t.len() + 1 > capacity {
                    e == Error::BufferOverflow
                } else {
                    e == Error::InteriorNul && t.contains(0u8)
                },
            }
        }),
{
    let b = s.as_bytes();
    let (lo, hi) = trimmed_range(b);
    if hi - lo >= capacity {
        return Err(Error::BufferOverflow);
    }
    let mut out = copy_range(b, lo, hi);
    let mut i: usize = 0;
    while i < out.len()
        invariant
            i <= out@.len(),
            out@ == trim_newlines(b@),
            out@.len() < capacity,
            b@ == s.spec_bytes(),
            forall|k: int| 0 <= k < i ==> out@[k] != 0u8,
        decreases out.len() - i,
    {
        if out[i] == 0 {
            assert(out@[i as int] == 0u8);
            assert(trim_newlines(b@).contains(0u8));
            return Err(Error::InteriorNul);
        }
        i += 1;
    }
    out.push(0);
    Ok(out)
}

#[verifier::external_type_specification]
#[verifier::external_body]
#[verifier::reject_recursive_types(T)]
pub struct ExHeaplessVec<T, const N: usize>(heapless::Vec<T, N>);

/// The bytes a bounded vector of `TLS_BUFFER_MAX` bytes holds.
pub uninterp spec fn bounded_bytes(v: heapless::Vec<u8, TLS_BUFFER_MAX>) -> Seq<u8>;

/// Relies on heapless's `Vec::new`: a new vector holds nothing.
#[verifier::external_body]
fn bounded_new() -> (r: heapless::Vec<u8, TLS_BUFFER_MAX>)
    ensures
        bounded_bytes(r) == Seq::<u8>::empty(),
{
    heapless::Vec::new()
}

/// Relies on heapless's `Vec::extend_from_slice`: the slice is appended if
/// it fits in the capacity `TLS_BUFFER_MAX`, and nothing changes otherwise.
#[verifier::external_body]
fn bounded_extend(v: &mut heapless::Vec<u8, TLS_BUFFER_MAX>, other: &[u8]) -> (r: bool)
    ensures
        r == (bounded_bytes(*old(v)).len() + other@.len() <= TLS_BUFFER_MAX),
        r ==> bounded_bytes(*final(v)) == bounded_bytes(*old(v)) + other@,
        !r ==> bounded_bytes(*final(v)) == bounded_bytes(*old(v)),
{
    v.extend_from_slice(other).is_ok()
}

/// Relies on heapless's `Vec::push`: the byte is appended if there is room
/// below the capacity `TLS_BUFFER_MAX`, and nothing changes otherwise.
#[verifier::external_body]
fn bounded_push(v: &mut heapless::Vec<u8, TLS_BUFFER_MAX>, b: u8) -> (r: bool)
    ensures
        r == (bounded_bytes(*old(v)).len() < TLS_BUFFER_MAX),
        r ==> bounded_bytes(*final(v)) == bounded_bytes(*old(v)).push(b),
        !r ==> bounded_bytes(*final(v)) == bounded_bytes(*old(v)),
{
    v.push(b).is_ok()
}

/// `s` with surrounding newlines trimmed, followed by a NUL, in a vector of
/// at most `TLS_BUFFER_MAX` bytes; NUL bytes inside are kept.
pub fn build_trimmed_c_str_vec(s: &str) -> (r: Result<heapless::Vec<u8, TLS_BUFFER_MAX>, Error>)
    ensures
        ({
            let t = trim_newlines(s.spec_bytes());
            match r {
                Ok(v) => t.len() < TLS_BUFFER_MAX && bounded_bytes(v) == t.push(0u8),
                Err(e) => t.len() >= TLS_BUFFER_MAX && e == Error::BufferOverflow,
            }
        }),
{
    let b = s.as_bytes();
    let (lo, hi) = trimmed_range(b);
    if hi - lo >= TLS_BUFFER_MAX {
        return Err(Error::BufferOverflow);
    }
    let trimmed = copy_range(b, lo, hi);
    let mut buf = bounded_new();
    if !bounded_extend(&mut buf, trimmed.as_slice()) {
        return Err(Error::BufferOverflow);
    }
    if !bounded_push(&mut buf, 0) {
        return Err(Error::BufferOverflow);
    }
    Ok(buf)
}

} // verus!
