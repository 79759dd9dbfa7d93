use stomp_client::{decode, Command, DecodeError, Frame, Header};

fn frame(command: Command, headers: &[(&str, &str)], body: &[u8]) -> Frame {
    Frame {
        command,
        headers: headers.iter().map(|(k, v)| Header::new(k, v)).collect(),
        body: body.to_vec(),
    }
}

fn pairs(frame: &Frame) -> Vec<(String, String)> {
    frame.headers.iter().map(|h| (h.key.clone(), h.value.clone())).collect()
}

fn owned(headers: &[(&str, &str)]) -> Vec<(String, String)> {
    headers.iter().map(|(k, v)| (k.to_string(), v.to_string())).collect()
}

#[test]
fn send_frame_end_to_end() {
    let f = frame(
        Command::SEND,
        &[("destination", "q"), ("content-type", "text/plain")],
        b"hi",
    );
    let text = f.serialize(None);
    assert_eq!(
        text.as_bytes(),
        b"SEND\r\ndestination:q\r\ncontent-type:text/plain\r\ncontent-length:2\r\n\r\nhi\0"
    );
    let (back, used) = decode(text.as_bytes()).unwrap();
    assert_eq!(used, text.len());
    assert_eq!(back.command, Command::SEND);
    assert_eq!(
        pairs(&back),
        owned(&[("destination", "q"), ("content-type", "text/plain"), ("content-length", "2")])
    );
    assert_eq!(back.body, b"hi".to_vec());
}

#[test]
fn disconnect_with_empty_body() {
    let f = frame(Command::DISCONNECT, &[("receipt", "7")], b"");
    let text = f.serialize(None);
    assert_eq!(text.as_bytes(), b"DISCONNECT\r\nreceipt:7\r\ncontent-length:0\r\n\r\n\0");
    let (back, used) = decode(text.as_bytes()).unwrap();
    assert_eq!(used, text.len());
    assert_eq!(back.command, Command::DISCONNECT);
    assert_eq!(pairs(&back), owned(&[("receipt", "7"), ("content-length", "0")]));
    assert!(back.body.is_empty());
}

#[test]
fn to_string_is_serialize_without_receipt() {
    let f = frame(Command::ACK, &[("id", "12")], b"x");
    assert_eq!(f.to_string(), f.serialize(None));
    assert_eq!(f.to_string(), "ACK\r\nid:12\r\ncontent-length:1\r\n\r\nx\0");
}

#[test]
fn encode_gives_the_bytes_of_serialize() {
    let f = frame(Command::SEND, &[("destination", "q")], b"hello");
    assert_eq!(f.encode(Some(3)), f.serialize(Some(3)).into_bytes());
    assert_eq!(f.encode(None), b"SEND\r\ndestination:q\r\ncontent-length:5\r\n\r\nhello\0".to_vec());
}

#[test]
fn encode_keeps_a_body_that_is_not_text() {
    let f = frame(Command::SEND, &[], &[0xff, 0xfe, 0x80]);
    let bytes = f.encode(None);
    assert_eq!(bytes, b"SEND\r\ncontent-length:3\r\n\r\n\xff\xfe\x80\0".to_vec());
    let (back, _) = decode(&bytes).unwrap();
    assert_eq!(back.body, vec![0xff, 0xfe, 0x80]);
}

#[test]
fn receipt_is_written_after_content_length() {
    let f = frame(Command::SEND, &[("destination", "q")], b"hi");
    assert_eq!(
        f.serialize(Some(5)),
        "SEND\r\ndestination:q\r\ncontent-length:2\r\nreceipt:5\r\n\r\nhi\0"
    );
}

#[test]
fn receipt_may_be_negative_or_extreme() {
    let f = frame(Command::SEND, &[], b"");
    assert_eq!(f.serialize(Some(-42)), "SEND\r\ncontent-length:0\r\nreceipt:-42\r\n\r\n\0");
    assert_eq!(f.serialize(Some(0)), "SEND\r\ncontent-length:0\r\nreceipt:0\r\n\r\n\0");
    assert_eq!(
        f.serialize(Some(i64::MAX)),
        "SEND\r\ncontent-length:0\r\nreceipt:9223372036854775807\r\n\r\n\0"
    );
    assert_eq!(
        f.serialize(Some(i64::MIN)),
        "SEND\r\ncontent-length:0\r\nreceipt:-9223372036854775808\r\n\r\n\0"
    );
}

#[test]
fn content_length_counts_bytes_in_decimal() {
    let body = vec![b'a'; 1234];
    let f = frame(Command::SEND, &[], &body);
    let text = f.serialize(None);
    assert!(text.starts_with("SEND\r\ncontent-length:1234\r\n\r\n"));
    let multibyte = frame(Command::SEND, &[], "h\u{e9}".as_bytes());
    assert_eq!(multibyte.serialize(None), "SEND\r\ncontent-length:3\r\n\r\nh\u{e9}\0");
}

#[test]
fn supplied_content_length_is_kept_as_it_is() {
    let f = frame(Command::SEND, &[("content-length", "99"), ("destination", "q")], b"hi");
    assert_eq!(
        f.serialize(None),
        "SEND\r\ncontent-length:99\r\ndestination:q\r\n\r\nhi\0"
    );
    let odd = frame(Command::SEND, &[("content-length", "not a number")], b"hi");
    assert_eq!(odd.serialize(None), "SEND\r\ncontent-length:not a number\r\n\r\nhi\0");
}

#[test]
fn content_length_key_is_matched_exactly() {
    let f = frame(Command::SEND, &[("Content-Length", "2")], b"hi");
    assert_eq!(
        f.serialize(None),
        "SEND\r\nContent-Length:2\r\ncontent-length:2\r\n\r\nhi\0"
    );
}

#[test]
fn duplicate_headers_keep_their_order() {
    let f = frame(Command::SEND, &[("a", "1"), ("b", "2"), ("a", "3")], b"");
    let text = f.serialize(None);
    assert_eq!(text, "SEND\r\na:1\r\nb:2\r\na:3\r\ncontent-length:0\r\n\r\n\0");
    let (back, _) = decode(text.as_bytes()).unwrap();
    assert_eq!(pairs(&back), owned(&[("a", "1"), ("b", "2"), ("a", "3"), ("content-length", "0")]));
}

#[test]
fn round_trip_reproduces_the_frame() {
    let f = frame(
        Command::MESSAGE,
        &[("destination", "/queue/a"), ("message-id", "007"), ("content-length", "11")],
        b"hello\nworld",
    );
    let text = f.serialize(None);
    let (back, used) = decode(text.as_bytes()).unwrap();
    assert_eq!(back, f);
    assert_eq!(used, text.len());
}

#[test]
fn round_trip_with_receipt_adds_both_headers() {
    let f = frame(Command::SEND, &[("destination", "q")], b"abc");
    let text = f.serialize(Some(8));
    let (back, _) = decode(text.as_bytes()).unwrap();
    assert_eq!(back.command, Command::SEND);
    assert_eq!(
        pairs(&back),
        owned(&[("destination", "q"), ("content-length", "3"), ("receipt", "8")])
    );
    assert_eq!(back.body, b"abc".to_vec());
}

#[test]
fn decode_uses_only_the_bytes_of_one_frame() {
    let mut input = b"ACK\r\ncontent-length:0\r\n\r\n\0".to_vec();
    let first = input.len();
    input.extend_from_slice(b"\r\nNACK\r\ncontent-length:1\r\n\r\nz\0trailing");
    let (a, used_a) = decode(&input).unwrap();
    assert_eq!(a.command, Command::ACK);
    assert_eq!(used_a, first);
    let (b, used_b) = decode(&input[used_a..]).unwrap();
    assert_eq!(b.command, Command::NACK);
    assert_eq!(b.body, b"z".to_vec());
    assert_eq!(used_b, input.len() - first - "trailing".len());
}

#[test]
fn declared_length_is_enforced() {
    let short = b"SEND\r\ncontent-length:5\r\n\r\nabcd\0";
    assert_eq!(
        decode(short),
        Err(DecodeError::BodyLengthMismatch { observed: 4, declared: 5 })
    );
    let long = b"SEND\r\ncontent-length:5\r\n\r\nabcdef\0";
    assert_eq!(
        decode(long),
        Err(DecodeError::BodyLengthMismatch { observed: 6, declared: 5 })
    );
    let exact = b"SEND\r\ncontent-length:5\r\n\r\nabcde\0";
    assert_eq!(decode(exact).unwrap().0.body, b"abcde".to_vec());
}

#[test]
fn body_ends_at_the_first_nul() {
    let input = b"SEND\r\ncontent-length:5\r\n\r\nab\0de\0";
    assert_eq!(
        decode(input),
        Err(DecodeError::BodyLengthMismatch { observed: 2, declared: 5 })
    );
}

#[test]
fn empty_body_still_needs_its_terminator() {
    assert_eq!(decode(b"SEND\r\ncontent-length:0\r\n\r\n"), Err(DecodeError::Truncated));
    let (f, used) = decode(b"SEND\r\ncontent-length:0\r\n\r\n\0").unwrap();
    assert!(f.body.is_empty());
    assert_eq!(used, 27);
    assert_eq!(
        decode(b"SEND\r\ncontent-length:0\r\n\r\nx\0"),
        Err(DecodeError::BodyLengthMismatch { observed: 1, declared: 0 })
    );
}

#[test]
fn blank_lines_before_a_frame_are_skipped() {
    let plain = b"SEND\r\ncontent-length:2\r\n\r\nhi\0".to_vec();
    let mut padded = b"\r\n\r\n".to_vec();
    padded.extend_from_slice(&plain);
    let (a, used_a) = decode(&plain).unwrap();
    let (b, used_b) = decode(&padded).unwrap();
    assert_eq!(a, b);
    assert_eq!(used_b, used_a + 4);
    let mut bare = b"\n".to_vec();
    bare.extend_from_slice(&plain);
    let (c, used_c) = decode(&bare).unwrap();
    assert_eq!(a, c);
    assert_eq!(used_c, used_a + 1);
}

#[test]
fn lines_may_end_in_a_bare_line_feed() {
    let (f, _) = decode(b"send\ncontent-length:1\nk:v\n\nx\0").unwrap();
    assert_eq!(f.command, Command::SEND);
    assert_eq!(pairs(&f), owned(&[("content-length", "1"), ("k", "v")]));
    assert_eq!(f.body, b"x".to_vec());
}

#[test]
fn unknown_command_is_rejected() {
    assert_eq!(decode(b"HELLO\r\ncontent-length:0\r\n\r\n\0"), Err(DecodeError::UnknownCommand));
    assert_eq!(decode(b" SEND\r\ncontent-length:0\r\n\r\n\0"), Err(DecodeError::UnknownCommand));
    assert_eq!(decode(b"\xff\xfe\r\n"), Err(DecodeError::UnknownCommand));
}

#[test]
fn command_line_ignores_case() {
    let (f, _) = decode(b"cOnNeCtEd\r\ncontent-length:0\r\n\r\n\0").unwrap();
    assert_eq!(f.command, Command::CONNECTED);
}

#[test]
fn command_line_counts_letters_by_their_upper_case() {
    let (f, used) = decode("\u{17f}end\r\ncontent-length:0\r\n\r\n\0".as_bytes()).unwrap();
    assert_eq!(f.command, Command::SEND);
    assert_eq!(used, 28);
    assert!(f.body.is_empty());
    let (g, _) = decode("me\u{df}age\r\ncontent-length:1\r\n\r\nx\0".as_bytes()).unwrap();
    assert_eq!(g.command, Command::MESSAGE);
    assert_eq!(g.body, b"x".to_vec());
}

#[test]
fn malformed_header_is_rejected() {
    assert_eq!(decode(b"SEND\r\nX\r\n\r\n\0"), Err(DecodeError::MalformedHeader));
    assert_eq!(decode(b"SEND\r\nA:B:C\r\n\r\n\0"), Err(DecodeError::MalformedHeader));
    assert_eq!(
        decode(b"SEND\r\ncontent-length:five\r\n\r\n\0"),
        Err(DecodeError::MalformedHeader)
    );
    assert_eq!(decode(b"SEND\r\ncontent-length:-1\r\n\r\n\0"), Err(DecodeError::MalformedHeader));
    assert_eq!(decode(b"SEND\r\ncontent-length: 1\r\n\r\nx\0"), Err(DecodeError::MalformedHeader));
    assert_eq!(decode(b"SEND\r\ncontent-length:\r\n\r\n\0"), Err(DecodeError::MalformedHeader));
    assert_eq!(
        decode(b"SEND\r\ncontent-length:99999999999999999999999999\r\n\r\n\0"),
        Err(DecodeError::MalformedHeader)
    );
}

#[test]
fn missing_content_length_is_rejected() {
    assert_eq!(decode(b"SEND\r\n\r\nhi\0"), Err(DecodeError::MissingContentLength));
    assert_eq!(
        decode(b"SEND\r\ndestination:q\r\n\r\nhi\0"),
        Err(DecodeError::MissingContentLength)
    );
}

#[test]
fn header_that_is_not_text_is_rejected() {
    assert_eq!(
        decode(b"SEND\r\ncontent-length:0\r\nk:\xff\r\n\r\n\0"),
        Err(DecodeError::InvalidText)
    );
    assert_eq!(decode(b"SEND\r\n\xc3:v\r\n\r\n\0"), Err(DecodeError::InvalidText));
}

#[test]
fn header_text_may_be_any_unicode() {
    let input = "SEND\r\ncl\u{e9}:\u{4e16}\u{754c}\r\ncontent-length:0\r\n\r\n\0";
    let (f, _) = decode(input.as_bytes()).unwrap();
    assert_eq!(pairs(&f), owned(&[("cl\u{e9}", "\u{4e16}\u{754c}"), ("content-length", "0")]));
    assert_eq!(f.serialize(None), input);
}

#[test]
fn input_that_ends_early_is_truncated() {
    assert_eq!(decode(b""), Err(DecodeError::Truncated));
    assert_eq!(decode(b"\r\n\r\n"), Err(DecodeError::Truncated));
    assert_eq!(decode(b"SEND"), Err(DecodeError::Truncated));
    assert_eq!(decode(b"SEND\r\n"), Err(DecodeError::Truncated));
    assert_eq!(decode(b"SEND\r\ncontent-length:2"), Err(DecodeError::Truncated));
    assert_eq!(decode(b"SEND\r\ncontent-length:2\r\n"), Err(DecodeError::Truncated));
    assert_eq!(decode(b"SEND\r\ncontent-length:2\r\n\r\nhi"), Err(DecodeError::Truncated));
}

#[test]
fn last_content_length_counts() {
    let input = b"SEND\r\ncontent-length:9\r\ncontent-length:2\r\n\r\nhi\0";
    let (f, _) = decode(input).unwrap();
    assert_eq!(f.body, b"hi".to_vec());
    assert_eq!(pairs(&f), owned(&[("content-length", "9"), ("content-length", "2")]));
    let reversed = b"SEND\r\ncontent-length:2\r\ncontent-length:9\r\n\r\nhi\0";
    assert_eq!(
        decode(reversed),
        Err(DecodeError::BodyLengthMismatch { observed: 2, declared: 9 })
    );
}

#[test]
fn content_length_may_carry_a_plus_sign_or_leading_zeros() {
    let (f, _) = decode(b"SEND\r\ncontent-length:+2\r\n\r\nhi\0").unwrap();
    assert_eq!(f.body, b"hi".to_vec());
    let (g, _) = decode(b"SEND\r\ncontent-length:002\r\n\r\nhi\0").unwrap();
    assert_eq!(g.body, b"hi".to_vec());
    assert_eq!(decode(b"SEND\r\ncontent-length:+\r\n\r\n\0"), Err(DecodeError::MalformedHeader));
    assert_eq!(decode(b"SEND\r\ncontent-length:++2\r\n\r\n\0"), Err(DecodeError::MalformedHeader));
}

#[test]
fn value_may_end_in_a_carriage_return() {
    let f = frame(Command::SEND, &[("k", "v\r")], b"");
    let text = f.serialize(None);
    assert_eq!(text, "SEND\r\nk:v\r\r\ncontent-length:0\r\n\r\n\0");
    let (back, _) = decode(text.as_bytes()).unwrap();
    assert_eq!(pairs(&back), owned(&[("k", "v\r"), ("content-length", "0")]));
}

#[test]
fn body_with_nul_does_not_round_trip() {
    let f = frame(Command::SEND, &[], b"a\0b");
    let text = f.serialize(None);
    assert_eq!(
        decode(text.as_bytes()),
        Err(DecodeError::BodyLengthMismatch { observed: 1, declared: 3 })
    );
}

#[test]
fn header_value_with_colon_does_not_round_trip() {
    let f = frame(Command::SEND, &[("destination", "/queue/a:b")], b"");
    let text = f.serialize(None);
    assert_eq!(decode(text.as_bytes()), Err(DecodeError::MalformedHeader));
}
