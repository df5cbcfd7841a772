use respkv::resp::{parse_request, ParseOutcome};

fn complete(bytes: &[u8]) -> (Vec<Vec<u8>>, usize) {
    match parse_request(bytes) {
        ParseOutcome::Complete(args, used) => (args, used),
        ParseOutcome::Incomplete => panic!("unexpectedly incomplete"),
        ParseOutcome::Malformed => panic!("unexpectedly malformed"),
    }
}

#[test]
fn whole_request_parses_to_its_arguments() {
    let bytes = b"*2\r\n$3\r\nGET\r\n$3\r\nfoo\r\n";
    let (args, used) = complete(bytes);
    assert_eq!(used, bytes.len());
    assert_eq!(args, vec![b"GET".to_vec(), b"foo".to_vec()]);
}

#[test]
fn trailing_bytes_are_left_for_the_next_attempt() {
    let bytes = b"*1\r\n$4\r\nPING\r\n*1\r\n$4";
    let (args, used) = complete(bytes);
    assert_eq!(args, vec![b"PING".to_vec()]);
    assert_eq!(used, b"*1\r\n$4\r\nPING\r\n".len());
}

#[test]
fn multi_digit_lengths_parse_fully() {
    let payload = vec![b'x'; 12];
    let mut bytes = b"*1\r\n$12\r\n".to_vec();
    bytes.extend_from_slice(&payload);
    bytes.extend_from_slice(b"\r\n");
    let (args, used) = complete(&bytes);
    assert_eq!(args, vec![payload]);
    assert_eq!(used, bytes.len());
}

#[test]
fn zero_argument_request_parses_empty() {
    let (args, used) = complete(b"*0\r\n");
    assert_eq!(args, Vec::<Vec<u8>>::new());
    assert_eq!(used, 4);
}

#[test]
fn binary_payloads_survive() {
    let bytes = b"*1\r\n$4\r\n\x00\xff\r\n\r\n";
    let (args, _) = complete(bytes);
    assert_eq!(args, vec![vec![0u8, 255, 13, 10]]);
}

#[test]
fn every_proper_prefix_is_incomplete() {
    let bytes = b"*2\r\n$3\r\nGET\r\n$3\r\nfoo\r\n";
    for cut in 0..bytes.len() {
        assert!(
            matches!(parse_request(&bytes[..cut]), ParseOutcome::Incomplete),
            "prefix of length {} should be incomplete",
            cut
        );
    }
}

#[test]
fn bad_framing_is_malformed() {
    assert!(matches!(parse_request(b"PING\r\n"), ParseOutcome::Malformed));
    assert!(matches!(parse_request(b"*x\r\n"), ParseOutcome::Malformed));
    assert!(matches!(parse_request(b"*\r\n"), ParseOutcome::Malformed));
    assert!(matches!(parse_request(b"*1\r\nX3\r\nfoo\r\n"), ParseOutcome::Malformed));
    assert!(matches!(parse_request(b"*1\r\n$3\r\nfooXY"), ParseOutcome::Malformed));
    assert!(matches!(parse_request(b"*1\r\n$3x\r\nfoo\r\n"), ParseOutcome::Malformed));
}

#[test]
fn encoded_bulk_parses_back() {
    // a request built from the library's own bulk encoding round-trips
    let mut bytes = b"*1\r\n".to_vec();
    bytes.extend_from_slice(&respkv::encoder::encode_resp_bulk_string(String::from(
        "roundtrip",
    )));
    let (args, used) = complete(&bytes);
    assert_eq!(args, vec![b"roundtrip".to_vec()]);
    assert_eq!(used, bytes.len());
}

#[test]
fn empty_bulk_arguments_parse() {
    let (args, used) = complete(b"*2\r\n$0\r\n\r\n$1\r\nx\r\n");
    assert_eq!(args, vec![Vec::new(), b"x".to_vec()]);
    assert_eq!(used, 17);
}
