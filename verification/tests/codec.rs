use respkv::decoder::{
    decode_array_indices, decode_get_pure_command, parse_i64, parse_u64, DecodeError,
};
use respkv::encoder::{
    empty_bulk_string, encode_resp_arrays, encode_resp_bulk_string, encode_resp_empty_array,
    encode_resp_error_string, encode_resp_integer, encode_resp_integer_value,
    encode_resp_simple_string, u64_to_dec,
};

#[test]
fn simple_string_wire_form() {
    assert_eq!(encode_resp_simple_string("PONG"), b"+PONG\r\n".to_vec());
    assert_eq!(encode_resp_simple_string("OK"), b"+OK\r\n".to_vec());
    assert_eq!(encode_resp_simple_string(""), b"+\r\n".to_vec());
}

#[test]
fn error_string_wire_form() {
    assert_eq!(
        encode_resp_error_string("Command not recognised"),
        b"-Command not recognised\r\n".to_vec()
    );
}

#[test]
fn integer_wire_form() {
    assert_eq!(encode_resp_integer("42"), b":42\r\n".to_vec());
    assert_eq!(encode_resp_integer_value(0), b":0\r\n".to_vec());
    assert_eq!(encode_resp_integer_value(7), b":7\r\n".to_vec());
    assert_eq!(encode_resp_integer_value(1234), b":1234\r\n".to_vec());
    assert_eq!(
        encode_resp_integer_value(u64::MAX),
        b":18446744073709551615\r\n".to_vec()
    );
}

#[test]
fn decimal_rendering() {
    assert_eq!(u64_to_dec(0), b"0".to_vec());
    assert_eq!(u64_to_dec(10), b"10".to_vec());
    assert_eq!(u64_to_dec(909), b"909".to_vec());
}

#[test]
fn bulk_string_wire_form() {
    assert_eq!(
        encode_resp_bulk_string(String::from("bar")),
        b"$3\r\nbar\r\n".to_vec()
    );
    assert_eq!(encode_resp_bulk_string(String::new()), b"$0\r\n\r\n".to_vec());
    // the declared length counts bytes, not characters
    assert_eq!(
        encode_resp_bulk_string(String::from("\u{e9}")),
        b"$2\r\n\xc3\xa9\r\n".to_vec()
    );
}

#[test]
fn null_bulk_wire_form() {
    assert_eq!(empty_bulk_string(), b"$-1\r\n".to_vec());
}

#[test]
fn array_wire_form() {
    assert_eq!(
        encode_resp_arrays(vec![String::from("a"), String::from("bc")]),
        b"*2\r\n$1\r\na\r\n$2\r\nbc\r\n".to_vec()
    );
    assert_eq!(encode_resp_arrays(Vec::new()), b"*0\r\n".to_vec());
    assert_eq!(encode_resp_empty_array(), b"*0\r\n".to_vec());
}

#[test]
fn parse_u64_accepts_plain_decimals() {
    assert_eq!(parse_u64("0"), Ok(0));
    assert_eq!(parse_u64("1234"), Ok(1234));
    assert_eq!(parse_u64("18446744073709551615"), Ok(u64::MAX));
}

#[test]
fn parse_u64_rejects_bad_text() {
    assert_eq!(parse_u64(""), Err(DecodeError::BadInt));
    assert_eq!(parse_u64("12a"), Err(DecodeError::BadInt));
    assert_eq!(parse_u64("-1"), Err(DecodeError::BadInt));
    assert_eq!(parse_u64("18446744073709551616"), Err(DecodeError::BadInt));
}

#[test]
fn parse_i64_handles_signs_and_limits() {
    assert_eq!(parse_i64("-1"), Ok(-1));
    assert_eq!(parse_i64("42"), Ok(42));
    assert_eq!(parse_i64("-9223372036854775808"), Ok(i64::MIN));
    assert_eq!(parse_i64("9223372036854775807"), Ok(i64::MAX));
    assert_eq!(parse_i64("-9223372036854775809"), Err(DecodeError::BadInt));
    assert_eq!(parse_i64("9223372036854775808"), Err(DecodeError::BadInt));
    assert_eq!(parse_i64("-"), Err(DecodeError::BadInt));
}

#[test]
fn array_indices_normalize_negative_stop() {
    // stop -1 means the last element; the pair is [start, end) over 4 items
    assert_eq!(decode_array_indices("0", "-1", 4), Ok(vec![0, 4]));
    assert_eq!(decode_array_indices("1", "2", 4), Ok(vec![1, 3]));
    assert_eq!(decode_array_indices("0", "-4", 4), Ok(vec![0, 1]));
}

#[test]
fn array_indices_reject_bad_bounds() {
    assert!(decode_array_indices("x", "1", 4).is_err());
    assert!(decode_array_indices("0", "y", 4).is_err());
    assert!(decode_array_indices("-1", "1", 4).is_err());
    // stop so negative that the normalized end is below zero
    assert_eq!(
        decode_array_indices("0", "-6", 4),
        Err(DecodeError::BadRange)
    );
}

#[test]
fn pure_command_picks_payload_tokens() {
    let split = vec!["*2", "$4", "echo", "$2", "hi", ""];
    assert_eq!(
        decode_get_pure_command(split),
        vec![String::from("echo"), String::from("hi")]
    );
    assert_eq!(decode_get_pure_command(Vec::new()), Vec::<String>::new());
}
