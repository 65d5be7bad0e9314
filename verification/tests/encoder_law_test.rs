use ferrum_kv::protocol::decimal::{push_decimal, push_signed_decimal};
use ferrum_kv::protocol::encoder::{
    encode_array_header, encode_bulk_string, encode_integer, encode_map_header, encode_null,
    encode_null_bulk, encode_simple_string,
};

#[test]
fn encoders_append_after_existing_bytes() {
    let mut buf = b"prefix".to_vec();
    encode_null(&mut buf);
    assert_eq!(buf, b"prefix_\r\n");
}

#[test]
fn decimal_matches_std_formatting() {
    for n in [0u64, 1, 9, 10, 99, 100, 12345, u64::MAX] {
        let mut buf = Vec::new();
        push_decimal(&mut buf, n);
        assert_eq!(buf, n.to_string().as_bytes());
    }
    for n in [0i64, -1, -10, 7, i64::MIN, i64::MAX, -9_000_000_000] {
        let mut buf = Vec::new();
        push_signed_decimal(&mut buf, n);
        assert_eq!(buf, n.to_string().as_bytes());
    }
}

#[test]
fn integer_minus_one_is_not_a_null() {
    let mut buf = Vec::new();
    encode_integer(&mut buf, -1);
    assert_eq!(buf, b":-1\r\n");
}

#[test]
fn bulk_payload_that_looks_like_a_null_stays_verbatim() {
    let mut buf = Vec::new();
    encode_bulk_string(&mut buf, b"$-1\r\n");
    assert_eq!(buf, b"$5\r\n$-1\r\n\r\n");
    let mut null = Vec::new();
    encode_null_bulk(&mut null);
    assert!(!buf.starts_with(&null));
}

#[test]
fn bulk_length_counts_bytes_not_chars() {
    let mut buf = Vec::new();
    encode_bulk_string(&mut buf, "é".as_bytes());
    assert_eq!(buf, b"$2\r\n\xc3\xa9\r\n");
}

#[test]
fn simple_string_writes_utf8_bytes() {
    let mut buf = Vec::new();
    encode_simple_string(&mut buf, "héllo");
    assert_eq!(buf, "+héllo\r\n".as_bytes());
}

#[test]
fn headers_render_multi_digit_counts() {
    let mut buf = Vec::new();
    encode_array_header(&mut buf, 12);
    encode_map_header(&mut buf, 1000);
    assert_eq!(buf, b"*12\r\n%1000\r\n");
}
