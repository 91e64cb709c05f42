//! Byte-string helpers shared by the version parser and the response framer:
//! trimming, searching and decimal numbers.
use vstd::prelude::*;

verus! {

/// ASCII whitespace: tab, line feed, vertical tab, form feed, carriage
/// return and space.
pub open spec fn is_ascii_space(b: u8) -> bool {
    b == 32 || (9 <= b && b <= 13)
}

/// Length of the UTF-8 encoding of a whitespace character that starts at
/// `i`, or 0 if none does. The characters are those `char::is_whitespace`
/// accepts: the ASCII ones, U+0085, U+00A0, U+1680, U+2000 to U+200A,
/// U+2028, U+2029, U+202F, U+205F and U+3000.
pub open spec fn space_len_at(s: Seq<u8>, i: int) -> int {
    if i < 0 || i >= s.len() {
        0
    } else if is_ascii_space(s[i]) {
        1
    } else if i + 2 <= s.len() && s[i] == 0xC2u8 && (s[i + 1] == 0x85u8 || s[i + 1] == 0xA0u8) {
        2
    } else if i + 3 <= s.len() && ((s[i] == 0xE1u8 && s[i + 1] == 0x9Au8 && s[i + 2] == 0x80u8)
        || (s[i] == 0xE2u8 && s[i + 1] == 0x80u8 && ((0x80u8 <= s[i + 2] && s[i + 2] <= 0x8Au8)
        || s[i + 2] == 0xA8u8 || s[i + 2] == 0xA9u8 || s[i + 2] == 0xAFu8)) || (s[i] == 0xE2u8
        && s[i + 1] == 0x81u8 && s[i + 2] == 0x9Fu8) || (s[i] == 0xE3u8 && s[i + 1] == 0x80u8
        && s[i + 2] == 0x80u8)) {
        3
    } else {
        0
    }
}

/// Length of the encoding of a whitespace character that ends at `j`, or 0.
pub open spec fn space_len_before(s: Seq<u8>, j: int) -> int {
    if space_len_at(s, j - 1) == 1 {
        1
    } else if space_len_at(s, j - 2) == 2 {
        2
    } else if space_len_at(s, j - 3) == 3 {
        3
    } else {
        0
    }
}

pub open spec fn is_digit(b: u8) -> bool {
    48 <= b && b <= 57
}

/// ASCII lower case of one byte.
pub open spec fn lower(b: u8) -> u8 {
    if 65 <= b && b <= 90 {
        (b + 32) as u8
    } else {
        b
    }
}

/// First index at or after `i` that does not start a whitespace character.
pub open spec fn skip_space(s: Seq<u8>, i: int) -> int
    decreases s.len() - i,
{
    if 0 <= i < s.len() && space_len_at(s, i) > 0 {
        skip_space(s, i + space_len_at(s, i))
    } else {
        i
    }
}

/// End of `s[lo..j]` once trailing whitespace characters are dropped.
pub open spec fn trim_end(s: Seq<u8>, lo: int, j: int) -> int
    decreases j,
{
    if j > lo && j > 0 && space_len_before(s, j) > 0 && j - space_len_before(s, j) >= lo {
        trim_end(s, lo, j - space_len_before(s, j))
    } else {
        j
    }
}

/// `s` without leading and trailing whitespace, as `str::trim` has it.
pub open spec fn trimmed(s: Seq<u8>) -> Seq<u8> {
    let lo = skip_space(s, 0);
    s.subrange(lo, trim_end(s, lo, s.len() as int))
}

/// First index at or after `i` holding `c`.
pub open spec fn find_from(s: Seq<u8>, c: u8, i: int) -> Option<int>
    decreases s.len() - i,
{
    if i < 0 || i >= s.len() {
        None
    } else if s[i] == c {
        Some(i)
    } else {
        find_from(s, c, i + 1)
    }
}

pub open spec fn all_digits(s: Seq<u8>) -> bool {
    forall|i: int| 0 <= i < s.len() ==> is_digit(#[trigger] s[i])
}

/// Value of a string of decimal digits.
pub open spec fn digits_value(s: Seq<u8>) -> nat
    decreases s.len(),
{
    if s.len() == 0 {
        0
    } else {
        digits_value(s.drop_last()) * 10 + (s.last() - 48) as nat
    }
}

/// A non-empty run of decimal digits whose value fits in `u32`.
pub open spec fn digits_u32(s: Seq<u8>) -> Option<u32> {
    if s.len() > 0 && all_digits(s) && digits_value(s) <= u32::MAX {
        Some(digits_value(s) as u32)
    } else {
        None
    }
}

/// `s` without one leading `+`.
pub open spec fn unsigned_part(s: Seq<u8>) -> Seq<u8> {
    if s.len() > 0 && s[0] == 43u8 {
        s.drop_first()
    } else {
        s
    }
}

/// A `u32` as `u32::from_str` reads it: an optional `+`, then a non-empty
/// run of decimal digits whose value fits.
pub open spec fn parse_u32(s: Seq<u8>) -> Option<u32> {
    digits_u32(unsigned_part(s))
}


/// Length of the whitespace character that starts at `i`, or 0.
pub fn space_len(s: &[u8], i: usize) -> (r: usize)
    ensures
        r as int == space_len_at(s@, i as int),
        r <= 3,
{
    let n = s.len();
    if i >= n {
        return 0;
    }
    let b = s[i];
    if b == 32 || (9 <= b && b <= 13) {
        return 1;
    }
    if n - i >= 2 && b == 0xC2 && (s[i + 1] == 0x85 || s[i + 1] == 0xA0) {
        return 2;
    }
    if n - i >= 3 {
        let b1 = s[i + 1];
        let b2 = s[i + 2];
        if (b == 0xE1 && b1 == 0x9A && b2 == 0x80) || (b == 0xE2 && b1 == 0x80 && ((0x80 <= b2
            && b2 <= 0x8A) || b2 == 0xA8 || b2 == 0xA9 || b2 == 0xAF)) || (b == 0xE2 && b1 == 0x81
            && b2 == 0x9F) || (b == 0xE3 && b1 == 0x80 && b2 == 0x80) {
            return 3;
        }
    }
    0
}

/// Length of the whitespace character that ends at `j`, or 0.
pub fn space_len_ending(s: &[u8], j: usize) -> (r: usize)
    ensures
        r as int == space_len_before(s@, j as int),
        r <= j,
{
    if j >= 1 && space_len(s, j - 1) == 1 {
        1
    } else if j >= 2 && space_len(s, j - 2) == 2 {
        2
    } else if j >= 3 && space_len(s, j - 3) == 3 {
        3
    } else {
        0
    }
}

/// A copy of `s[lo..hi]`.
pub fn copy_range(s: &[u8], lo: usize, hi: usize) -> (r: Vec<u8>)
    requires
        lo <= hi <= s@.len(),
    ensures
        r@ == s@.subrange(lo as int, hi as int),
{
    let mut r: Vec<u8> = Vec::new();
    let mut i: usize = lo;
    while i < hi
        invariant
            lo <= i <= hi,
            hi <= s@.len(),
            r@ == s@.subrange(lo as int, i as int),
        decreases hi - i,
    {
        r.push(s[i]);
        i += 1;
    }
    r
}

/// Index of the first `c` at or after `from`.
pub fn find_byte(s: &[u8], c: u8, from: usize) -> (r: Option<usize>)
    ensures
        match r {
            Some(k) => find_from(s@, c, from as int) == Some(k as int),
            None => find_from(s@, c, from as int) is None,
        },
        r matches Some(k) ==> from <= k < s@.len() && s@[k as int] == c,
{
    let mut i: usize = from;
    while i < s.len()
        invariant
            from <= i,
            find_from(s@, c, i as int) == find_from(s@, c, from as int),
        decreases s.len() - i,
    {
        if s[i] == c {
            return Some(i);
        }
        i += 1;
    }
    None
}

/// Index of the first non-whitespace byte at or after `from`.
pub fn skip_space_from(s: &[u8], from: usize) -> (r: usize)
    ensures
        r == skip_space(s@, from as int),
        from <= s@.len() ==> from <= r <= s@.len(),
{
    let mut i: usize = from;
    loop
        invariant
            from <= i,
            from <= s@.len() ==> i <= s@.len(),
            skip_space(s@, i as int) == skip_space(s@, from as int),
        ensures
            i >= s@.len() || space_len_at(s@, i as int) == 0,
        decreases s@.len() - i,
    {
        if i >= s.len() {
            break;
        }
        let k = space_len(s, i);
        if k == 0 {
            break;
        }
        i += k;
    }
    i
}

/// End of `s[lo..hi]` without its trailing whitespace.
pub fn trim_end_from(s: &[u8], lo: usize, hi: usize) -> (r: usize)
    requires
        hi <= s@.len(),
    ensures
        r == trim_end(s@, lo as int, hi as int),
        lo <= hi ==> lo <= r <= hi,
{
    let mut j: usize = hi;
    loop
        invariant
            j <= hi,
            hi <= s@.len(),
            lo <= hi ==> lo <= j,
            trim_end(s@, lo as int, j as int) == trim_end(s@, lo as int, hi as int),
        ensures
            j <= lo || space_len_before(s@, j as int) == 0 || j - space_len_before(s@, j as int)
                < lo,
        decreases j,
    {
        if j <= lo {
            break;
        }
        let k = space_len_ending(s, j);
        if k == 0 || j - k < lo {
            break;
        }
        j -= k;
    }
    j
}

/// A prefix of a digit string is worth no more than the whole.
pub proof fn lemma_digits_prefix_le(s: Seq<u8>, i: int)
    requires
        all_digits(s),
        0 <= i <= s.len(),
    ensures
        digits_value(s.subrange(0, i)) <= digits_value(s),
    decreases s.len(),
{
    if i < s.len() {
        let t = s.drop_last();
        assert(t.subrange(0, i) =~= s.subrange(0, i));
        assert(all_digits(t)) by {
            assert forall|k: int| 0 <= k < t.len() implies is_digit(#[trigger] t[k]) by {
                assert(t[k] == s[k]);
            }
        }
        lemma_digits_prefix_le(t, i);
    } else {
        assert(s.subrange(0, i) =~= s);
    }
}

/// The `u32` that all of `s` denotes, if any: an optional `+`, then
/// decimal digits.
pub fn parse_u32_digits(s: &[u8]) -> (r: Option<u32>)
    ensures
        r == parse_u32(s@),
{
    if s.len() > 0 && s[0] == 43 {
        let rest = copy_range(s, 1, s.len());
        assert(rest@ =~= unsigned_part(s@));
        digits_to_u32(rest.as_slice())
    } else {
        digits_to_u32(s)
    }
}

fn digits_to_u32(s: &[u8]) -> (r: Option<u32>)
    ensures
        r == digits_u32(s@),
{
    if s.len() == 0 {
        return None;
    }
    let mut v: u64 = 0;
    let mut i: usize = 0;
    while i < s.len()
        invariant
            0 <= i <= s@.len(),
            all_digits(s@.subrange(0, i as int)),
            v as nat == digits_value(s@.subrange(0, i as int)),
            v <= u32::MAX,
        decreases s.len() - i,
    {
        let b = s[i];
        if b < 48 || b > 57 {
            assert(!all_digits(s@));
            return None;
        }
        let nv: u64 = v * 10 + (b - 48) as u64;
        proof {
            let p = s@.subrange(0, i as int + 1);
            assert(p.drop_last() =~= s@.subrange(0, i as int));
            assert(all_digits(p)) by {
                assert forall|k: int| 0 <= k < p.len() implies is_digit(#[trigger] p[k]) by {
                    if k < i {
                        assert(p[k] == s@.subrange(0, i as int)[k]);
                    }
                }
            }
            assert(nv as nat == digits_value(p));
        }
        if nv > 0xffff_ffffu64 {
            proof {
                if all_digits(s@) {
                    lemma_digits_prefix_le(s@, i as int + 1);
                }
            }
            return None;
        }
        v = nv;
        i += 1;
    }
    assert(s@.subrange(0, s@.len() as int) =~= s@);
    Some(v as u32)
}

/// Decimal digits of `n`, without leading zeros.
pub open spec fn decimal(n: nat) -> Seq<u8>
    decreases n,
{
    if n < 10 {
        seq![(48 + n) as u8]
    } else {
        decimal(n / 10).push((48 + n % 10) as u8)
    }
}

/// Appends the decimal digits of `n`.
pub fn push_decimal(out: &mut Vec<u8>, n: u32)
    ensures
        final(out)@ == old(out)@ + decimal(n as nat),
    decreases n,
{
    if n >= 10 {
        push_decimal(out, n / 10);
    }
    out.push(48 + (n % 10) as u8);
    proof {
        if n >= 10 {
            assert(final(out)@ =~= old(out)@ + decimal(n as nat));
        } else {
            assert(final(out)@ =~= old(out)@ + decimal(n as nat));
        }
    }
}

/// The digits of `n` read back as `n`.
pub proof fn lemma_decimal(n: nat)
    ensures
        decimal(n).len() > 0,
        all_digits(decimal(n)),
        digits_value(decimal(n)) == n,
        n <= u32::MAX ==> parse_u32(decimal(n)) == Some(n as u32),
    decreases n,
{
    if n >= 10 {
        lemma_decimal(n / 10);
        let d = decimal(n);
        assert(d.drop_last() =~= decimal(n / 10));
        assert(all_digits(d)) by {
            assert forall|i: int| 0 <= i < d.len() implies is_digit(#[trigger] d[i]) by {
                if i < d.len() - 1 {
                    assert(d[i] == decimal(n / 10)[i]);
                }
            }
        }
        assert(d.last() == (48 + n % 10) as u8);
        assert(n == (n / 10) * 10 + n % 10) by (nonlinear_arith);
        assert(digits_value(d) == digits_value(decimal(n / 10)) * 10 + (n % 10));
    } else {
        let d = decimal(n);
        assert(d.drop_last() =~= Seq::<u8>::empty());
        assert(d.last() == (48 + n) as u8);
        assert(digits_value(d) == digits_value(d.drop_last()) * 10 + (d.last() - 48) as nat);
        assert(all_digits(d));
    }
    assert(is_digit(decimal(n)[0]));
    assert(unsigned_part(decimal(n)) == decimal(n));
}

/// `find_from` stops at the first `c`.
pub proof fn lemma_find_at(s: Seq<u8>, c: u8, i: int, k: int)
    requires
        0 <= i <= k < s.len(),
        s[k] == c,
        forall|j: int| i <= j < k ==> s[j] != c,
    ensures
        find_from(s, c, i) == Some(k),
    decreases k - i,
{
    if i < k {
        lemma_find_at(s, c, i + 1, k);
    }
}

/// `find_from` finds nothing where no `c` is left.
pub proof fn lemma_find_none(s: Seq<u8>, c: u8, i: int)
    requires
        0 <= i,
        forall|j: int| i <= j < s.len() ==> s[j] != c,
    ensures
        find_from(s, c, i) is None,
    decreases s.len() - i,
{
    if i < s.len() {
        lemma_find_none(s, c, i + 1);
    }
}

/// Appends all of `data`.
pub fn append_bytes(out: &mut Vec<u8>, data: &[u8])
    ensures
        final(out)@ == old(out)@ + data@,
{
    let mut i: usize = 0;
    while i < data.len()
        invariant
            i <= data@.len(),
            out@ == old(out)@ + data@.subrange(0, i as int),
        decreases data.len() - i,
    {
        out.push(data[i]);
        i += 1;
        assert(out@ =~= old(out)@ + data@.subrange(0, i as int));
    }
    assert(data@.subrange(0, data@.len() as int) =~= data@);
}

/// `w` occurs in `s` at `k`.
pub open spec fn occurs_at(s: Seq<u8>, w: Seq<u8>, k: int) -> bool {
    0 <= k && k + w.len() <= s.len() && s.subrange(k, k + w.len()) == w
}

/// First index at or after `i` where `w` occurs.
pub open spec fn find_word_from(s: Seq<u8>, w: Seq<u8>, i: int) -> Option<int>
    decreases s.len() + 1 - i,
{
    if i < 0 || i + w.len() > s.len() {
        None
    } else if occurs_at(s, w, i) {
        Some(i)
    } else {
        find_word_from(s, w, i + 1)
    }
}

/// `s` with every whitespace character left out, as filtering with
/// `char::is_whitespace` does.
pub open spec fn without_spaces(s: Seq<u8>) -> Seq<u8> {
    spaces_removed_from(s, 0)
}

/// `s[i..]` with every whitespace character left out, scanning forward.
pub open spec fn spaces_removed_from(s: Seq<u8>, i: int) -> Seq<u8>
    decreases s.len() - i,
{
    if i < 0 || i >= s.len() {
        Seq::empty()
    } else if space_len_at(s, i) > 0 {
        spaces_removed_from(s, i + space_len_at(s, i))
    } else {
        seq![s[i]] + spaces_removed_from(s, i + 1)
    }
}

fn occurs_at_exec(s: &[u8], w: &[u8], k: usize) -> (r: bool)
    requires
        k + w@.len() <= s@.len(),
    ensures
        r == occurs_at(s@, w@, k as int),
{
    let n = s.len();
    let mut j: usize = 0;
    while j < w.len()
        invariant
            j <= w@.len(),
            n == s@.len(),
            k + w@.len() <= s@.len(),
            forall|t: int| 0 <= t < j ==> s@[k + t] == w@[t],
        decreases w.len() - j,
    {
        if s[k + j] != w[j] {
            assert(s@.subrange(k as int, k + w@.len())[j as int] != w@[j as int]);
            return false;
        }
        j += 1;
    }
    assert(s@.subrange(k as int, k + w@.len()) =~= w@);
    true
}

/// Index of the first occurrence of `w` at or after `from`.
pub fn find_word(s: &[u8], w: &[u8], from: usize) -> (r: Option<usize>)
    ensures
        match r {
            Some(k) => find_word_from(s@, w@, from as int) == Some(k as int),
            None => find_word_from(s@, w@, from as int) is None,
        },
        r matches Some(k) ==> from <= k && k + w@.len() <= s@.len(),
{
    let n = s.len();
    let m = w.len();
    if m > n || from > n - m {
        return None;
    }
    if m == 0 {
        assert(s@.subrange(from as int, from as int) =~= w@);
        return Some(from);
    }
    let mut i: usize = from;
    while i <= n - m
        invariant
            n == s@.len(),
            m == w@.len(),
            1 <= m <= n,
            from <= i <= n - m + 1,
            find_word_from(s@, w@, i as int) == find_word_from(s@, w@, from as int),
        decreases n - m + 1 - i,
    {
        if occurs_at_exec(s, w, i) {
            return Some(i);
        }
        i += 1;
    }
    None
}

/// A copy of `s` without its whitespace bytes.
pub fn remove_spaces(s: &[u8]) -> (r: Vec<u8>)
    ensures
        r@ == without_spaces(s@),
{
    let mut out: Vec<u8> = Vec::new();
    let mut i: usize = 0;
    while i < s.len()
        invariant
            i <= s@.len(),
            out@ + spaces_removed_from(s@, i as int) == without_spaces(s@),
        decreases s.len() - i,
    {
        let k = space_len(s, i);
        if k > 0 {
            i += k;
        } else {
            let ghost before = out@;
            out.push(s[i]);
            assert(before + spaces_removed_from(s@, i as int) =~= out@ + spaces_removed_from(
                s@,
                i + 1,
            ));
            i += 1;
        }
    }
    assert(out@ + spaces_removed_from(s@, i as int) =~= out@);
    out
}

} // verus!
