//! Semantic versions: `major.minor.patch[-prerelease[.n]]`, parsed from bytes
//! and totally ordered.
use vstd::prelude::*;
use vstd::string::StringSliceAdditionalSpecFns;
use crate::text::{
    copy_range, decimal, find_byte, find_from, is_digit, lemma_decimal, lemma_find_at,
    lemma_find_none, lower, parse_u32, parse_u32_digits, push_decimal, skip_space, skip_space_from,
    space_len_at, space_len_before,
    trim_end, trim_end_from, trimmed,
};

verus! {

/// Kind of a pre-release tag, in increasing order.
#[derive(Debug, Clone, Copy, PartialEq, Eq, Structural)]
pub enum PreReleaseKind {
    Alpha,
    Beta,
    Rc,
    Other,
}

/// A pre-release tag such as `beta.2` or `rc`.
#[derive(Debug, Clone, Copy, PartialEq, Eq, Structural)]
pub struct PreRelease {
    pub kind: PreReleaseKind,
    /// Numeric suffix; an absent suffix ranks below any present one.
    pub number: Option<u32>,
}

/// A semantic version; `pre_release == None` is a stable release.
#[derive(Debug, Clone, Copy, PartialEq, Eq, Structural)]
pub struct SemVer {
    pub major: u32,
    pub minor: u32,
    pub patch: u32,
    pub pre_release: Option<PreRelease>,
}

/// Rank of a pre-release kind: alpha < beta < rc < other.
pub open spec fn kind_rank(k: PreReleaseKind) -> int {
    match k {
        PreReleaseKind::Alpha => 0,
        PreReleaseKind::Beta => 1,
        PreReleaseKind::Rc => 2,
        PreReleaseKind::Other => 3,
    }
}

/// `a` ranks strictly above `b`: kind first, then numeric suffix.
pub open spec fn pre_release_gt(a: PreRelease, b: PreRelease) -> bool {
    if kind_rank(a.kind) != kind_rank(b.kind) {
        kind_rank(a.kind) > kind_rank(b.kind)
    } else {
        match (a.number, b.number) {
            (Some(x), Some(y)) => x > y,
            (Some(_), None) => true,
            _ => false,
        }
    }
}

/// `a` is strictly newer than `b`.
pub open spec fn version_gt(a: SemVer, b: SemVer) -> bool {
    if a.major != b.major {
        a.major > b.major
    } else if a.minor != b.minor {
        a.minor > b.minor
    } else if a.patch != b.patch {
        a.patch > b.patch
    } else {
        match (a.pre_release, b.pre_release) {
            (None, Some(_)) => true,
            (Some(x), Some(y)) => pre_release_gt(x, y),
            _ => false,
        }
    }
}

/// `s` without one leading `v` or `V`.
pub open spec fn strip_v(s: Seq<u8>) -> Seq<u8> {
    if s.len() > 0 && (s[0] == 118u8 || s[0] == 86u8) {
        s.drop_first()
    } else {
        s
    }
}

/// First index at or after `i` that does not hold a `.`.
pub open spec fn skip_dots(s: Seq<u8>, i: int) -> int
    decreases s.len() - i,
{
    if 0 <= i < s.len() && s[i] == 46u8 {
        skip_dots(s, i + 1)
    } else {
        i
    }
}

/// `s` starts with the lower-case word `w`, ignoring ASCII case.
pub open spec fn has_prefix_ci(s: Seq<u8>, w: Seq<u8>) -> bool {
    w.len() <= s.len() && forall|i: int| 0 <= i < w.len() ==> lower(#[trigger] s[i]) == w[i]
}

pub open spec fn word_alpha() -> Seq<u8> {
    seq![97u8, 108u8, 112u8, 104u8, 97u8]
}

pub open spec fn word_beta() -> Seq<u8> {
    seq![98u8, 101u8, 116u8, 97u8]
}

pub open spec fn word_rc() -> Seq<u8> {
    seq![114u8, 99u8]
}

/// The numeric suffix after a kind word: absent when nothing follows,
/// otherwise the rest without leading dots, if it is a `u32`.
pub open spec fn suffix_number(rest: Seq<u8>) -> Option<u32> {
    if rest.len() == 0 {
        None
    } else {
        parse_u32(rest.subrange(skip_dots(rest, 0), rest.len() as int))
    }
}

/// The pre-release tag that the text after the first `-` denotes.
pub open spec fn pre_release_of(t: Seq<u8>) -> PreRelease {
    if has_prefix_ci(t, word_alpha()) {
        PreRelease { kind: PreReleaseKind::Alpha, number: suffix_number(t.subrange(5, t.len() as int)) }
    } else if has_prefix_ci(t, word_beta()) {
        PreRelease { kind: PreReleaseKind::Beta, number: suffix_number(t.subrange(4, t.len() as int)) }
    } else if has_prefix_ci(t, word_rc()) {
        PreRelease { kind: PreReleaseKind::Rc, number: suffix_number(t.subrange(2, t.len() as int)) }
    } else {
        PreRelease { kind: PreReleaseKind::Other, number: suffix_number(t) }
    }
}

/// Exactly three `.`-separated `u32`s.
pub open spec fn triple_of(v: Seq<u8>) -> Option<(u32, u32, u32)> {
    match find_from(v, 46u8, 0) {
        None => None,
        Some(d1) => match find_from(v, 46u8, d1 + 1) {
            None => None,
            Some(d2) => if find_from(v, 46u8, d2 + 1).is_some() {
                None
            } else {
                match (
                    parse_u32(v.subrange(0, d1)),
                    parse_u32(v.subrange(d1 + 1, d2)),
                    parse_u32(v.subrange(d2 + 1, v.len() as int)),
                ) {
                    (Some(a), Some(b), Some(c)) => Some((a, b, c)),
                    _ => None,
                }
            },
        },
    }
}

/// The version that a text denotes, if any: surrounding whitespace and one
/// leading `v`/`V` are dropped, the first `-` starts the pre-release tag.
pub open spec fn semver_of(s: Seq<u8>) -> Option<SemVer> {
    let t = strip_v(trimmed(s));
    let (v, pre) = match find_from(t, 45u8, 0) {
        Some(d) => (t.subrange(0, d), Some(t.subrange(d + 1, t.len() as int))),
        None => (t, None),
    };
    match triple_of(v) {
        Some((a, b, c)) => Some(
            SemVer {
                major: a,
                minor: b,
                patch: c,
                pre_release: match pre {
                    Some(p) => Some(pre_release_of(p)),
                    None => None,
                },
            },
        ),
        None => None,
    }
}



/// The kind's word as `format` writes it; `Other` is written as nothing.
pub open spec fn kind_word(k: PreReleaseKind) -> Seq<u8> {
    match k {
        PreReleaseKind::Alpha => word_alpha(),
        PreReleaseKind::Beta => word_beta(),
        PreReleaseKind::Rc => word_rc(),
        PreReleaseKind::Other => Seq::empty(),
    }
}

/// Canonical text of a pre-release tag: `beta.2`, `rc`, or for `Other`
/// the bare suffix.
pub open spec fn format_pre_release(p: PreRelease) -> Seq<u8> {
    kind_word(p.kind) + match p.number {
        None => Seq::empty(),
        Some(n) => if p.kind == PreReleaseKind::Other {
            decimal(n as nat)
        } else {
            seq![46u8] + decimal(n as nat)
        },
    }
}

/// The numeric part `major.minor.patch`.
pub open spec fn format_core(v: SemVer) -> Seq<u8> {
    decimal(v.major as nat) + seq![46u8] + decimal(v.minor as nat) + seq![46u8] + decimal(
        v.patch as nat,
    )
}

/// Canonical text of a version.
pub open spec fn format_version(v: SemVer) -> Seq<u8> {
    format_core(v) + match v.pre_release {
        None => Seq::empty(),
        Some(p) => seq![45u8] + format_pre_release(p),
    }
}

/// Bytes that canonical version text is made of.
pub open spec fn canonical_byte(b: u8) -> bool {
    is_digit(b) || b == 46u8 || b == 45u8 || (97 <= b && b <= 122)
}

proof fn lemma_all_canonical(s: Seq<u8>, t: Seq<u8>)
    requires
        forall|i: int| 0 <= i < s.len() ==> canonical_byte(#[trigger] s[i]),
        forall|i: int| 0 <= i < t.len() ==> canonical_byte(#[trigger] t[i]),
    ensures
        forall|i: int| 0 <= i < (s + t).len() ==> canonical_byte(#[trigger] (s + t)[i]),
{
    assert forall|i: int| 0 <= i < (s + t).len() implies canonical_byte(#[trigger] (s + t)[i]) by {
        if i < s.len() {
            assert((s + t)[i] == s[i]);
        } else {
            assert((s + t)[i] == t[i - s.len()]);
        }
    }
}

proof fn lemma_decimal_canonical(n: nat)
    ensures
        forall|i: int| 0 <= i < decimal(n).len() ==> canonical_byte(#[trigger] decimal(n)[i]),
{
    lemma_decimal(n);
    assert forall|i: int| 0 <= i < decimal(n).len() implies canonical_byte(#[trigger] decimal(n)[i]) by {
        assert(is_digit(decimal(n)[i]));
    }
}

proof fn lemma_suffix_number_of_decimal(n: u32, dotted: bool)
    ensures
        suffix_number(if dotted { seq![46u8] + decimal(n as nat) } else { decimal(n as nat) })
            == Some(n),
{
    lemma_decimal(n as nat);
    let d = decimal(n as nat);
    if dotted {
        let r = seq![46u8] + d;
        assert(r[0] == 46u8);
        assert(r[1] == d[0]);
        assert(skip_dots(r, 1) == 1);
        assert(skip_dots(r, 0) == 1);
        assert(r.subrange(1, r.len() as int) =~= d);
    } else {
        assert(skip_dots(d, 0) == 0);
        assert(d.subrange(0, d.len() as int) =~= d);
    }
}

proof fn lemma_pre_release_round_trip(p: PreRelease)
    ensures
        pre_release_of(format_pre_release(p)) == p,
{
    let t = format_pre_release(p);
    let w = kind_word(p.kind);
    let suf = t.subrange(w.len() as int, t.len() as int);
    assert(suf =~= match p.number {
        None => Seq::<u8>::empty(),
        Some(n) => if p.kind == PreReleaseKind::Other {
            decimal(n as nat)
        } else {
            seq![46u8] + decimal(n as nat)
        },
    });
    if let Some(n) = p.number {
        lemma_suffix_number_of_decimal(n, p.kind != PreReleaseKind::Other);
        lemma_decimal(n as nat);
    }
    assert(forall|i: int| 0 <= i < w.len() ==> t[i] == w[i]);
    match p.kind {
        PreReleaseKind::Alpha => {
            assert(has_prefix_ci(t, word_alpha()));
        },
        PreReleaseKind::Beta => {
            assert(lower(t[0]) != word_alpha()[0]);
            assert(has_prefix_ci(t, word_beta()));
        },
        PreReleaseKind::Rc => {
            assert(lower(t[0]) != word_alpha()[0]);
            assert(lower(t[0]) != word_beta()[0]);
            assert(has_prefix_ci(t, word_rc()));
        },
        PreReleaseKind::Other => {
            assert(t =~= suf);
            if t.len() > 0 {
                assert(is_digit(t[0]));
                assert(lower(t[0]) != word_alpha()[0]);
                assert(lower(t[0]) != word_beta()[0]);
                assert(lower(t[0]) != word_rc()[0]);
            }
        },
    }
}

proof fn lemma_triple_round_trip(v: SemVer)
    ensures
        triple_of(format_core(v)) == Some((v.major, v.minor, v.patch)),
{
    let a = decimal(v.major as nat);
    let b = decimal(v.minor as nat);
    let c = decimal(v.patch as nat);
    lemma_decimal(v.major as nat);
    lemma_decimal(v.minor as nat);
    lemma_decimal(v.patch as nat);
    let f = format_core(v);
    assert(f =~= a + seq![46u8] + b + seq![46u8] + c);
    let d1 = a.len() as int;
    let d2 = d1 + 1 + b.len();
    assert(forall|j: int| 0 <= j < d1 ==> f[j] == a[j]);
    assert(forall|j: int| d1 < j < d2 ==> f[j] == b[j - d1 - 1]);
    assert(forall|j: int| d2 < j < f.len() ==> f[j] == c[j - d2 - 1]);
    assert(forall|j: int| 0 <= j < d1 ==> f[j] != 46u8) by {
        assert(forall|j: int| 0 <= j < a.len() ==> is_digit(#[trigger] a[j]));
    }
    assert(forall|j: int| d1 < j < d2 ==> f[j] != 46u8) by {
        assert(forall|j: int| 0 <= j < b.len() ==> is_digit(#[trigger] b[j]));
    }
    assert(forall|j: int| d2 < j < f.len() ==> f[j] != 46u8) by {
        assert(forall|j: int| 0 <= j < c.len() ==> is_digit(#[trigger] c[j]));
    }
    lemma_find_at(f, 46u8, 0, d1);
    lemma_find_at(f, 46u8, d1 + 1, d2);
    lemma_find_none(f, 46u8, d2 + 1);
    assert(f.subrange(0, d1) =~= a);
    assert(f.subrange(d1 + 1, d2) =~= b);
    assert(f.subrange(d2 + 1, f.len() as int) =~= c);
}

fn lower_byte(b: u8) -> (r: u8)
    ensures
        r == lower(b),
{
    if 65 <= b && b <= 90 {
        b + 32
    } else {
        b
    }
}

fn starts_with_word(s: &[u8], w: &[u8]) -> (r: bool)
    ensures
        r == has_prefix_ci(s@, w@),
{
    if w.len() > s.len() {
        return false;
    }
    let mut i: usize = 0;
    while i < w.len()
        invariant
            i <= w@.len() <= s@.len(),
            forall|k: int| 0 <= k < i ==> lower(#[trigger] s@[k]) == w@[k],
        decreases w.len() - i,
    {
        if lower_byte(s[i]) != w[i] {
            return false;
        }
        i += 1;
    }
    true
}

fn parse_suffix_number(rest: &[u8]) -> (r: Option<u32>)
    ensures
        r == suffix_number(rest@),
{
    if rest.len() == 0 {
        return None;
    }
    let mut i: usize = 0;
    while i < rest.len() && rest[i] == 46
        invariant
            i <= rest@.len(),
            skip_dots(rest@, i as int) == skip_dots(rest@, 0),
        decreases rest.len() - i,
    {
        i += 1;
    }
    let digits = copy_range(rest, i, rest.len());
    parse_u32_digits(digits.as_slice())
}

fn parse_triple(v: &[u8]) -> (r: Option<(u32, u32, u32)>)
    ensures
        r == triple_of(v@),
{
    let n = v.len();
    let d1 = match find_byte(v, 46, 0) {
        Some(d) => d,
        None => return None,
    };
    let d2 = match find_byte(v, 46, d1 + 1) {
        Some(d) => d,
        None => return None,
    };
    if find_byte(v, 46, d2 + 1).is_some() {
        return None;
    }
    let a = parse_u32_digits(copy_range(v, 0, d1).as_slice());
    let b = parse_u32_digits(copy_range(v, d1 + 1, d2).as_slice());
    let c = parse_u32_digits(copy_range(v, d2 + 1, n).as_slice());
    match (a, b, c) {
        (Some(a), Some(b), Some(c)) => Some((a, b, c)),
        _ => None,
    }
}


proof fn lemma_format_canonical(v: SemVer)
    ensures
        forall|i: int| 0 <= i < format_version(v).len() ==> canonical_byte(#[trigger] format_version(v)[i]),
{
    lemma_decimal_canonical(v.major as nat);
    lemma_decimal_canonical(v.minor as nat);
    lemma_decimal_canonical(v.patch as nat);
    let dot = seq![46u8];
    let dash = seq![45u8];
    assert(forall|i: int| 0 <= i < dot.len() ==> canonical_byte(#[trigger] dot[i]));
    assert(forall|i: int| 0 <= i < dash.len() ==> canonical_byte(#[trigger] dash[i]));
    lemma_all_canonical(decimal(v.major as nat), dot);
    lemma_all_canonical(decimal(v.major as nat) + dot, decimal(v.minor as nat));
    lemma_all_canonical(decimal(v.major as nat) + dot + decimal(v.minor as nat), dot);
    lemma_all_canonical(decimal(v.major as nat) + dot + decimal(v.minor as nat) + dot, decimal(v.patch as nat));
    let tail = match v.pre_release {
        None => Seq::<u8>::empty(),
        Some(p) => dash + format_pre_release(p),
    };
    if let Some(p) = v.pre_release {
        let w = kind_word(p.kind);
        let num = match p.number {
            None => Seq::<u8>::empty(),
            Some(n) => if p.kind == PreReleaseKind::Other {
                decimal(n as nat)
            } else {
                dot + decimal(n as nat)
            },
        };
        assert(forall|i: int| 0 <= i < w.len() ==> canonical_byte(#[trigger] w[i]));
        if let Some(n) = p.number {
            lemma_decimal_canonical(n as nat);
            lemma_all_canonical(dot, decimal(n as nat));
        }
        assert(forall|i: int| 0 <= i < num.len() ==> canonical_byte(#[trigger] num[i]));
        lemma_all_canonical(w, num);
        assert(format_pre_release(p) =~= w + num);
        lemma_all_canonical(dash, format_pre_release(p));
    }
    assert(forall|i: int| 0 <= i < tail.len() ==> canonical_byte(#[trigger] tail[i]));
    lemma_all_canonical(format_core(v), tail);
    assert(format_version(v) =~= format_core(v) + tail);
}

proof fn lemma_core_has_no_dash(v: SemVer)
    ensures
        forall|j: int| 0 <= j < format_core(v).len() ==> format_core(v)[j] != 45u8,
{
    let a = decimal(v.major as nat);
    let b = decimal(v.minor as nat);
    let c = decimal(v.patch as nat);
    lemma_decimal(v.major as nat);
    lemma_decimal(v.minor as nat);
    lemma_decimal(v.patch as nat);
    let core = format_core(v);
    assert(core =~= a + seq![46u8] + b + seq![46u8] + c);
    assert forall|j: int| 0 <= j < core.len() implies core[j] != 45u8 by {
        let d1 = a.len() as int;
        let d2 = d1 + 1 + b.len();
        if j < d1 {
            assert(core[j] == a[j]);
            assert(is_digit(a[j]));
        } else if j == d1 || j == d2 {
        } else if j < d2 {
            assert(core[j] == b[j - d1 - 1]);
            assert(is_digit(b[j - d1 - 1]));
        } else {
            assert(core[j] == c[j - d2 - 1]);
            assert(is_digit(c[j - d2 - 1]));
        }
    }
}

/// Formatting then parsing gives back the same version, for every version.
pub proof fn lemma_parse_format_round_trip(v: SemVer)
    ensures
        semver_of(format_version(v)) == Some(v),
{
    let core = format_core(v);
    let f = format_version(v);
    lemma_triple_round_trip(v);
    lemma_decimal(v.major as nat);
    lemma_decimal(v.minor as nat);
    lemma_decimal(v.patch as nat);
    lemma_format_canonical(v);
    lemma_core_has_no_dash(v);
    let tail = match v.pre_release {
        None => Seq::<u8>::empty(),
        Some(p) => seq![45u8] + format_pre_release(p),
    };
    assert(f =~= core + tail);
    assert(f[0] == decimal(v.major as nat)[0]);
    assert(core =~= decimal(v.major as nat) + seq![46u8] + decimal(v.minor as nat) + seq![46u8]
        + decimal(v.patch as nat));
    assert(f.len() >= 5);
    assert(canonical_byte(f[0]));
    assert(canonical_byte(f[f.len() - 1]));
    assert(canonical_byte(f[f.len() - 2]));
    assert(canonical_byte(f[f.len() - 3]));
    assert(space_len_at(f, 0) == 0);
    assert(space_len_before(f, f.len() as int) == 0);
    assert(skip_space(f, 0) == 0);
    assert(trim_end(f, 0, f.len() as int) == f.len());
    assert(trimmed(f) =~= f);
    assert(strip_v(f) == f);
    let dl = core.len() as int;
    assert(forall|j: int| 0 <= j < dl ==> f[j] == core[j]);
    match v.pre_release {
        None => {
            assert(f =~= core);
            lemma_find_none(f, 45u8, 0);
        },
        Some(p) => {
            lemma_pre_release_round_trip(p);
            assert(f[dl] == 45u8);
            lemma_find_at(f, 45u8, 0, dl);
            assert(f.subrange(0, dl) =~= core);
            assert(f.subrange(dl + 1, f.len() as int) =~= format_pre_release(p));
        },
    }
}

/// `version_gt` is a strict total order: irreflexive, asymmetric,
/// transitive, and any two different versions are ordered one way.
pub proof fn lemma_version_order(a: SemVer, b: SemVer, c: SemVer)
    ensures
        !version_gt(a, a),
        version_gt(a, b) ==> !version_gt(b, a),
        version_gt(a, b) && version_gt(b, c) ==> version_gt(a, c),
        a != b ==> version_gt(a, b) || version_gt(b, a),
{
}

impl PreReleaseKind {
    fn rank(&self) -> (r: u8)
        ensures
            r as int == kind_rank(*self),
    {
        match self {
            PreReleaseKind::Alpha => 0,
            PreReleaseKind::Beta => 1,
            PreReleaseKind::Rc => 2,
            PreReleaseKind::Other => 3,
        }
    }
}

impl PreRelease {

    /// Parses the text after the first `-`: a kind word (`alpha`, `beta`,
    /// `rc`, any case; anything else is `Other`) and an optional numeric
    /// suffix after optional dots. Every text denotes some tag.
    pub fn parse(s: &[u8]) -> (r: Option<PreRelease>)
        ensures
            r == Some(pre_release_of(s@)),
    {
        let alpha: Vec<u8> = vec![97, 108, 112, 104, 97];
        let beta: Vec<u8> = vec![98, 101, 116, 97];
        let rc: Vec<u8> = vec![114, 99];
        assert(alpha@ =~= word_alpha());
        assert(beta@ =~= word_beta());
        assert(rc@ =~= word_rc());
        if starts_with_word(s, alpha.as_slice()) {
            let rest = copy_range(s, 5, s.len());
            Some(PreRelease { kind: PreReleaseKind::Alpha, number: parse_suffix_number(rest.as_slice()) })
        } else if starts_with_word(s, beta.as_slice()) {
            let rest = copy_range(s, 4, s.len());
            Some(PreRelease { kind: PreReleaseKind::Beta, number: parse_suffix_number(rest.as_slice()) })
        } else if starts_with_word(s, rc.as_slice()) {
            let rest = copy_range(s, 2, s.len());
            Some(PreRelease { kind: PreReleaseKind::Rc, number: parse_suffix_number(rest.as_slice()) })
        } else {
            Some(PreRelease { kind: PreReleaseKind::Other, number: parse_suffix_number(s) })
        }
    }

    /// Three-way comparison: kind first, then numeric suffix.
    pub fn cmp(&self, other: &PreRelease) -> (r: core::cmp::Ordering)
        ensures
            (r == core::cmp::Ordering::Greater) == pre_release_gt(*self, *other),
            (r == core::cmp::Ordering::Less) == pre_release_gt(*other, *self),
            (r == core::cmp::Ordering::Equal) == (*self == *other),
    {
        let a = self.kind.rank();
        let b = other.kind.rank();
        if a != b {
            return if a > b {
                core::cmp::Ordering::Greater
            } else {
                core::cmp::Ordering::Less
            };
        }
        match (self.number, other.number) {
            (None, None) => core::cmp::Ordering::Equal,
            (None, Some(_)) => core::cmp::Ordering::Less,
            (Some(_), None) => core::cmp::Ordering::Greater,
            (Some(x), Some(y)) => {
                if x > y {
                    core::cmp::Ordering::Greater
                } else if x < y {
                    core::cmp::Ordering::Less
                } else {
                    core::cmp::Ordering::Equal
                }
            },
        }
    }
}

impl SemVer {

    /// Parses `major.minor.patch[-prerelease]`, ignoring surrounding
    /// whitespace (as `str::trim` does) and one leading `v` or `V`; each
    /// number is read as `u32::from_str` reads it, an optional `+` included.
    /// `None` on any other shape.
    pub fn parse(version: &str) -> (r: Option<SemVer>)
        ensures
            r == semver_of(version.spec_bytes()),
    {
        SemVer::parse_bytes(version.as_bytes())
    }

    /// As `parse`, on the bytes of the text.
    pub fn parse_bytes(s: &[u8]) -> (r: Option<SemVer>)
        ensures
            r == semver_of(s@),
    {
        let lo = skip_space_from(s, 0);
        let hi = trim_end_from(s, lo, s.len());
        let mut start = lo;
        if start < hi && (s[start] == 118 || s[start] == 86) {
            start += 1;
        }
        let t = copy_range(s, start, hi);
        assert(t@ =~= strip_v(trimmed(s@)));
        let dash = find_byte(t.as_slice(), 45, 0);
        let (v, pre) = match dash {
            Some(d) => (copy_range(t.as_slice(), 0, d), Some(copy_range(t.as_slice(), d + 1, t.len()))),
            None => (t, None),
        };
        let triple = parse_triple(v.as_slice());
        match triple {
            Some((a, b, c)) => {
                let pre_release = match pre {
                    Some(p) => PreRelease::parse(p.as_slice()),
                    None => None,
                };
                Some(SemVer { major: a, minor: b, patch: c, pre_release })
            },
            None => None,
        }
    }


    /// Canonical text of the version, `major.minor.patch[-tag]`.
    #[verifier::rlimit(40)]
    pub fn format(&self) -> (r: Vec<u8>)
        ensures
            r@ == format_version(*self),
    {
        let mut out: Vec<u8> = Vec::new();
        push_decimal(&mut out, self.major);
        out.push(46);
        push_decimal(&mut out, self.minor);
        out.push(46);
        push_decimal(&mut out, self.patch);
        assert(out@ =~= format_core(*self));
        let ghost core = out@;
        if let Some(p) = &self.pre_release {
            out.push(45);
            match p.kind {
                PreReleaseKind::Alpha => {
                    out.push(97);
                    out.push(108);
                    out.push(112);
                    out.push(104);
                    out.push(97);
                },
                PreReleaseKind::Beta => {
                    out.push(98);
                    out.push(101);
                    out.push(116);
                    out.push(97);
                },
                PreReleaseKind::Rc => {
                    out.push(114);
                    out.push(99);
                },
                PreReleaseKind::Other => {},
            }
            assert(out@ =~= core + seq![45u8] + kind_word(p.kind));
            let ghost worded = out@;
            if let Some(n) = p.number {
                if p.kind != PreReleaseKind::Other {
                    out.push(46);
                }
                push_decimal(&mut out, n);
            }
            assert(out@ =~= worded + (format_pre_release(*p).subrange(
                kind_word(p.kind).len() as int,
                format_pre_release(*p).len() as int,
            )));
            assert(out@ =~= core + (seq![45u8] + format_pre_release(*p)));
        } else {
            assert(out@ =~= core + Seq::<u8>::empty());
        }
        assert(out@ =~= format_version(*self));
        out
    }

    /// True iff `self` is strictly newer than `other`.
    pub fn is_greater_than(&self, other: &SemVer) -> (r: bool)
        ensures
            r == version_gt(*self, *other),
    {
        if self.major != other.major {
            return self.major > other.major;
        }
        if self.minor != other.minor {
            return self.minor > other.minor;
        }
        if self.patch != other.patch {
            return self.patch > other.patch;
        }
        match (&self.pre_release, &other.pre_release) {
            (None, None) => false,
            (None, Some(_)) => true,
            (Some(_), None) => false,
            (Some(a), Some(b)) => {
                let o = a.cmp(b);
                match o {
                    core::cmp::Ordering::Greater => true,
                    _ => false,
                }
            },
        }
    }
}

} // verus!
