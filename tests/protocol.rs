use ota_core::ota::Error;
use ota_core::protocol::{
    decide_update, find_header_end, firmware_request, parse_number, version_request, Decision, VersionInfo,
};
use ota_core::semver::SemVer;

#[test]
fn version_request_has_exact_bytes() {
    let r = version_request("node-7", "ota.example.org");
    assert_eq!(
        r,
        b"GET /version?device=node-7 HTTP/1.1\r\nHost: ota.example.org\r\nConnection: close\r\n\r\n".to_vec()
    );
}

#[test]
fn firmware_request_has_exact_bytes() {
    let r = firmware_request("n1", "h");
    assert_eq!(r, b"GET /firmware?device=n1 HTTP/1.1\r\nHost: h\r\nConnection: close\r\n\r\n".to_vec());
}

#[test]
fn header_end_is_just_past_first_blank_line() {
    assert_eq!(find_header_end(b"HTTP/1.1 200 OK\r\n\r\nbody"), Some(19));
    assert_eq!(find_header_end(b"\r\n\r\n\r\n\r\n"), Some(4));
    assert_eq!(find_header_end(b"HTTP/1.1 200 OK\r\n\r"), None);
    assert_eq!(find_header_end(b""), None);
    assert_eq!(find_header_end(b"\r\n\r"), None);
}

#[test]
fn parse_number_reads_trimmed_decimal() {
    assert_eq!(parse_number(b" 1000\r"), Ok(1000));
    assert_eq!(parse_number(b"4294967295"), Ok(4294967295));
    assert_eq!(parse_number(b"4294967296"), Err(Error::Info));
    assert_eq!(parse_number(b"12a"), Err(Error::Info));
    assert_eq!(parse_number(b""), Err(Error::Info));
    assert_eq!(parse_number(b"-1"), Err(Error::Info));
    assert_eq!(parse_number(b"+5"), Ok(5));
    assert_eq!(parse_number(b" +5\r"), Ok(5));
    assert_eq!(parse_number(b"+"), Err(Error::Info));
    assert_eq!(parse_number(b"++5"), Err(Error::Info));
    assert_eq!(parse_number("\u{a0}5".as_bytes()), Ok(5));
    assert_eq!(parse_number("\u{2000}\u{200a}42\u{3000}\r".as_bytes()), Ok(42));
    assert_eq!(parse_number("4\u{a0}2".as_bytes()), Err(Error::Info));
    assert_eq!(parse_number(&[0xC2, 0x35]), Err(Error::Info));
}

fn running(s: &str) -> Option<SemVer> {
    SemVer::parse(s)
}

#[test]
fn newer_version_is_an_update() {
    let d = decide_update(b"2.1.0\n3735928559\n1000\n", &running("2.0.5"));
    assert_eq!(
        d,
        Ok(Decision::Update(VersionInfo { version: SemVer::parse("2.1.0").unwrap(), crc32: 3735928559, size: 1000 }))
    );
}

#[test]
fn version_line_is_trimmed_like_str_trim() {
    let d = decide_update("\u{a0}2.1.0\u{2028}\n7\n\u{3000}10".as_bytes(), &running("2.0.5"));
    assert_eq!(
        d,
        Ok(Decision::Update(VersionInfo { version: SemVer::parse("2.1.0").unwrap(), crc32: 7, size: 10 }))
    );
}

#[test]
fn same_or_older_version_is_skipped() {
    assert_eq!(decide_update(b"2.0.5\n1\n1000", &running("2.0.5")), Ok(Decision::Skip));
    assert_eq!(decide_update(b"1.9.9\n1\n1000", &running("2.0.5")), Ok(Decision::Skip));
    assert_eq!(decide_update(b"2.0.5", &running("2.0.5")), Ok(Decision::Skip));
}

#[test]
fn unparsable_versions_are_skipped() {
    assert_eq!(decide_update(b"latest\n1\n1000", &running("2.0.5")), Ok(Decision::Skip));
    assert_eq!(decide_update(b"9.0.0\n1\n1000", &running("dev-build")), Ok(Decision::Skip));
}

#[test]
fn missing_or_bad_lines_are_info_errors() {
    assert_eq!(decide_update(b"2.1.0\n123", &running("2.0.5")), Err(Error::Info));
    assert_eq!(decide_update(b"2.1.0", &running("2.0.5")), Err(Error::Info));
    assert_eq!(decide_update(b"2.1.0\n123\n", &running("2.0.5")), Err(Error::Info));
    assert_eq!(decide_update(b"2.1.0\nabc\n1000", &running("2.0.5")), Err(Error::Info));
}
