use ota_core::cstr::{build_trimmed_c_str_vec, write_trimmed_c_str, Error, TLS_BUFFER_MAX};

#[test]
fn trims_newlines_and_terminates() {
    assert_eq!(write_trimmed_c_str("\n\n-----BEGIN X-----\nAQID\n\n", 64), Ok(b"-----BEGIN X-----\nAQID\0".to_vec()));
    assert_eq!(write_trimmed_c_str("", 1), Ok(vec![0]));
    assert_eq!(write_trimmed_c_str("\n\n", 1), Ok(vec![0]));
    assert_eq!(write_trimmed_c_str(" a ", 4), Ok(b" a \0".to_vec()));
}

#[test]
fn refuses_what_does_not_fit() {
    assert_eq!(write_trimmed_c_str("abc", 3), Err(Error::BufferOverflow));
    assert_eq!(write_trimmed_c_str("abc\n", 4), Ok(b"abc\0".to_vec()));
    assert_eq!(write_trimmed_c_str("", 0), Err(Error::BufferOverflow));
}

#[test]
fn refuses_interior_nul() {
    assert_eq!(write_trimmed_c_str("a\0b", 16), Err(Error::InteriorNul));
}

#[test]
fn builds_bounded_vector() {
    let bytes = |s: &str| build_trimmed_c_str_vec(s).map(|v| v.as_slice().to_vec());
    assert_eq!(bytes("\nkey\n"), Ok(b"key\0".to_vec()));
    assert_eq!(bytes("a\0b"), Ok(b"a\0b\0".to_vec()));
    let long = "x".repeat(TLS_BUFFER_MAX - 1);
    assert_eq!(bytes(&long).map(|v| v.len()), Ok(TLS_BUFFER_MAX));
    let too_long = "x".repeat(TLS_BUFFER_MAX);
    assert_eq!(bytes(&too_long), Err(Error::BufferOverflow));
}
