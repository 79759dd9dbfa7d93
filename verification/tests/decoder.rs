use stomp_client::{Command, DecodeError, Demand, FrameDecoder, Header};

#[test]
fn decoder_reads_a_frame_piece_by_piece() {
    let d = FrameDecoder::new();
    assert_eq!(d.demand(), Demand::Line);
    let (d, used) = d.feed(b"\r\n").unwrap();
    assert_eq!(used, 2);
    assert_eq!(d.demand(), Demand::Line);
    let (d, used) = d.feed(b"message\r\n").unwrap();
    assert_eq!(used, 9);
    assert_eq!(d.demand(), Demand::Line);
    let (d, used) = d.feed(b"destination:q\r\n").unwrap();
    assert_eq!(used, 15);
    let (d, used) = d.feed(b"content-length:3\n").unwrap();
    assert_eq!(used, 17);
    assert_eq!(d.demand(), Demand::Line);
    let (d, used) = d.feed(b"\r\n").unwrap();
    assert_eq!(used, 2);
    assert_eq!(d.demand(), Demand::Body);
    let (d, used) = d.feed(b"a\nb\0").unwrap();
    assert_eq!(used, 4);
    assert_eq!(d.demand(), Demand::Nothing);
    let frame = d.into_frame().unwrap();
    assert_eq!(frame.command, Command::MESSAGE);
    assert_eq!(
        frame.headers,
        vec![Header::new("destination", "q"), Header::new("content-length", "3")]
    );
    assert_eq!(frame.body, b"a\nb".to_vec());
}

#[test]
fn decoder_takes_one_piece_from_longer_data() {
    let d = FrameDecoder::new();
    let (d, used) = d.feed(b"ACK\r\ncontent-length:0\r\n\r\n\0").unwrap();
    assert_eq!(used, 5);
    let (d, used) = d.feed(b"content-length:0\r\n\r\n\0").unwrap();
    assert_eq!(used, 18);
    let (d, used) = d.feed(b"\r\n\0").unwrap();
    assert_eq!(used, 2);
    let (d, used) = d.feed(b"\0ACK\r\n").unwrap();
    assert_eq!(used, 1);
    assert!(d.into_frame().unwrap().body.is_empty());
}

#[test]
fn whole_decoder_takes_nothing_more() {
    let d = FrameDecoder::new();
    let (d, _) = d.feed(b"ACK\n").unwrap();
    let (d, _) = d.feed(b"content-length:0\n").unwrap();
    let (d, _) = d.feed(b"\n").unwrap();
    let (d, _) = d.feed(b"\0").unwrap();
    let (d, used) = d.feed(b"more").unwrap();
    assert_eq!(used, 0);
    assert_eq!(d.demand(), Demand::Nothing);
    assert_eq!(d.into_frame().unwrap().command, Command::ACK);
}

#[test]
fn decoder_without_a_whole_frame_gives_none() {
    assert!(FrameDecoder::new().into_frame().is_none());
    let (d, _) = FrameDecoder::new().feed(b"ACK\n").unwrap();
    assert!(d.into_frame().is_none());
}

#[test]
fn piece_without_its_end_is_truncated() {
    assert_eq!(FrameDecoder::new().feed(b"").err(), Some(DecodeError::Truncated));
    assert_eq!(FrameDecoder::new().feed(b"SEND").err(), Some(DecodeError::Truncated));
    let (d, _) = FrameDecoder::new().feed(b"SEND\n").unwrap();
    assert_eq!(d.feed(b"k:v").err(), Some(DecodeError::Truncated));
    let (d, _) = FrameDecoder::new().feed(b"SEND\n").unwrap();
    let (d, _) = d.feed(b"content-length:1\n").unwrap();
    let (d, _) = d.feed(b"\n").unwrap();
    assert_eq!(d.feed(b"x").err(), Some(DecodeError::Truncated));
}

#[test]
fn decoder_reads_the_command_as_text() {
    let (d, used) = FrameDecoder::new().feed("subscr\u{131}be\r\n".as_bytes()).unwrap();
    assert_eq!(used, 12);
    let (d, _) = d.feed(b"content-length:0\n").unwrap();
    let (d, _) = d.feed(b"\n").unwrap();
    let (d, _) = d.feed(b"\0").unwrap();
    assert_eq!(d.into_frame().unwrap().command, Command::SUBSCRIBE);
    assert_eq!(FrameDecoder::new().feed(b"SEND\xff\n").err(), Some(DecodeError::UnknownCommand));
    assert_eq!(FrameDecoder::new().feed(b"\xc5\n").err(), Some(DecodeError::UnknownCommand));
}

#[test]
fn decoder_reports_each_error_at_its_line() {
    assert_eq!(FrameDecoder::new().feed(b"NOPE\n").err(), Some(DecodeError::UnknownCommand));
    let (d, _) = FrameDecoder::new().feed(b"SEND\n").unwrap();
    assert_eq!(d.feed(b"no colon\n").err(), Some(DecodeError::MalformedHeader));
    let (d, _) = FrameDecoder::new().feed(b"SEND\n").unwrap();
    assert_eq!(d.feed(b"\n").err(), Some(DecodeError::MissingContentLength));
    let (d, _) = FrameDecoder::new().feed(b"SEND\n").unwrap();
    assert_eq!(d.feed(b"k:\xf0\x28\n").err(), Some(DecodeError::InvalidText));
    let (d, _) = FrameDecoder::new().feed(b"SEND\n").unwrap();
    let (d, _) = d.feed(b"content-length:2\n").unwrap();
    let (d, _) = d.feed(b"\n").unwrap();
    assert_eq!(
        d.feed(b"abc\0").err(),
        Some(DecodeError::BodyLengthMismatch { observed: 3, declared: 2 })
    );
}
