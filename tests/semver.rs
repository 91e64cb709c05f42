use ota_core::semver::{PreRelease, PreReleaseKind, SemVer};
use std::cmp::Ordering;

fn v(s: &str) -> SemVer {
    SemVer::parse(s).expect("version should parse")
}

fn ver(major: u32, minor: u32, patch: u32, pre: Option<(PreReleaseKind, Option<u32>)>) -> SemVer {
    SemVer {
        major,
        minor,
        patch,
        pre_release: pre.map(|(kind, number)| PreRelease { kind, number }),
    }
}

#[test]
fn format_then_parse_round_trips() {
    let cases = vec![
        ver(0, 0, 0, None),
        ver(1, 2, 3, None),
        ver(4294967295, 10, 907, None),
        ver(2, 0, 0, Some((PreReleaseKind::Alpha, None))),
        ver(2, 0, 0, Some((PreReleaseKind::Alpha, Some(1)))),
        ver(2, 0, 0, Some((PreReleaseKind::Beta, Some(0)))),
        ver(2, 0, 0, Some((PreReleaseKind::Rc, Some(12)))),
        ver(3, 1, 4, Some((PreReleaseKind::Other, None))),
        ver(3, 1, 4, Some((PreReleaseKind::Other, Some(7)))),
    ];
    for x in cases {
        let text = x.format();
        let s = String::from_utf8(text).unwrap();
        assert_eq!(SemVer::parse(&s), Some(x), "round trip of {}", s);
    }
}

#[test]
fn format_writes_canonical_text() {
    assert_eq!(ver(1, 2, 3, None).format(), b"1.2.3".to_vec());
    assert_eq!(ver(10, 0, 7, Some((PreReleaseKind::Beta, Some(2)))).format(), b"10.0.7-beta.2".to_vec());
    assert_eq!(ver(1, 0, 0, Some((PreReleaseKind::Rc, None))).format(), b"1.0.0-rc".to_vec());
}

#[test]
fn greater_than_orders_versions() {
    assert!(v("1.0.0").is_greater_than(&v("0.9.9")));
    assert!(!v("0.9.9").is_greater_than(&v("1.0.0")));
    assert!(v("2.0.0").is_greater_than(&v("2.0.0-beta")));
    assert!(!v("2.0.0-beta").is_greater_than(&v("2.0.0")));
    let chain = [
        "2.0.0-alpha",
        "2.0.0-alpha.1",
        "2.0.0-beta",
        "2.0.0-beta.2",
        "2.0.0-rc",
        "2.0.0-rc.1",
        "2.0.0",
    ];
    for i in 0..chain.len() {
        for j in 0..chain.len() {
            let a = v(chain[i]);
            let b = v(chain[j]);
            assert_eq!(a.is_greater_than(&b), i > j, "{} vs {}", chain[i], chain[j]);
        }
    }
}

#[test]
fn equal_versions_are_not_greater() {
    assert!(!v("1.2.3").is_greater_than(&v("1.2.3")));
    assert!(!v("1.2.3-rc.1").is_greater_than(&v("1.2.3-rc.1")));
}

#[test]
fn parse_rejects_malformed_versions() {
    assert_eq!(SemVer::parse("1.2"), None);
    assert_eq!(SemVer::parse("1.2.3.4"), None);
    assert_eq!(SemVer::parse("abc"), None);
    assert_eq!(SemVer::parse(""), None);
    assert_eq!(SemVer::parse("1..3"), None);
    assert_eq!(SemVer::parse("4294967296.0.0"), None);
    assert_eq!(SemVer::parse("v"), None);
}

#[test]
fn parse_reads_numbers_as_from_str_does() {
    assert_eq!(SemVer::parse("+1.2.3"), Some(ver(1, 2, 3, None)));
    assert_eq!(SemVer::parse("1.+2.+3-rc+1"), Some(ver(1, 2, 3, Some((PreReleaseKind::Rc, Some(1))))));
    assert_eq!(SemVer::parse("++1.2.3"), None);
    assert_eq!(SemVer::parse("+.2.3"), None);
    assert_eq!(PreRelease::parse(b"rc+1"), Some(PreRelease { kind: PreReleaseKind::Rc, number: Some(1) }));
}

#[test]
fn parse_trims_unicode_whitespace() {
    assert_eq!(SemVer::parse("\u{a0}1.2.3"), Some(ver(1, 2, 3, None)));
    assert_eq!(SemVer::parse("\u{3000}\u{2003}v1.2.3-rc.1\u{85}\u{2028}"), Some(ver(1, 2, 3, Some((PreReleaseKind::Rc, Some(1))))));
    assert_eq!(SemVer::parse("1.2.3\u{1680}\u{205f}\u{202f}\u{2029}"), Some(ver(1, 2, 3, None)));
    assert_eq!(SemVer::parse("1.2.\u{a0}3"), None);
    assert_eq!(SemVer::parse("\u{200b}1.2.3"), None);
}

#[test]
fn parse_accepts_prefix_and_whitespace() {
    assert_eq!(SemVer::parse(" v1.2.3\r\n"), Some(ver(1, 2, 3, None)));
    assert_eq!(SemVer::parse("V0.1.0"), Some(ver(0, 1, 0, None)));
    assert_eq!(SemVer::parse("4294967295.0.1"), Some(ver(4294967295, 0, 1, None)));
}

#[test]
fn parse_reads_pre_release_tags() {
    assert_eq!(SemVer::parse("1.2.3-beta.1"), Some(ver(1, 2, 3, Some((PreReleaseKind::Beta, Some(1))))));
    assert_eq!(SemVer::parse("1.2.3-RC2"), Some(ver(1, 2, 3, Some((PreReleaseKind::Rc, Some(2))))));
    assert_eq!(SemVer::parse("1.2.3-Alpha"), Some(ver(1, 2, 3, Some((PreReleaseKind::Alpha, None)))));
    assert_eq!(SemVer::parse("1.2.3-beta.x"), Some(ver(1, 2, 3, Some((PreReleaseKind::Beta, None)))));
    assert_eq!(SemVer::parse("1.2.3-dev"), Some(ver(1, 2, 3, Some((PreReleaseKind::Other, None)))));
    assert_eq!(SemVer::parse("1.2.3-..5"), Some(ver(1, 2, 3, Some((PreReleaseKind::Other, Some(5))))));
    assert_eq!(SemVer::parse("1.2.3-"), Some(ver(1, 2, 3, Some((PreReleaseKind::Other, None)))));
}

#[test]
fn pre_release_compare_kind_then_number() {
    let a = PreRelease { kind: PreReleaseKind::Beta, number: None };
    let b = PreRelease { kind: PreReleaseKind::Beta, number: Some(0) };
    let c = PreRelease { kind: PreReleaseKind::Rc, number: None };
    assert_eq!(a.cmp(&b), Ordering::Less);
    assert_eq!(b.cmp(&a), Ordering::Greater);
    assert_eq!(b.cmp(&c), Ordering::Less);
    assert_eq!(c.cmp(&c), Ordering::Equal);
    assert_eq!(PreRelease::parse(b"other.9"), Some(PreRelease { kind: PreReleaseKind::Other, number: None }));
}
