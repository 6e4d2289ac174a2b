use bytes::BytesMut;
use tokio_io::length_delimited::{Builder, FramedRead, FramedWrite};
use tokio_io::mock::{Mock, MockCall};
use tokio_io::Async::{NotReady, Ready};
use tokio_io::ErrorKind;

fn data(b: &[u8]) -> MockCall {
    MockCall::Data(b.to_vec())
}

fn would_block() -> MockCall {
    MockCall::Fail(ErrorKind::WouldBlock)
}

fn frame(b: &[u8]) -> BytesMut {
    BytesMut::from(b)
}

#[test]
fn read_empty_io_yields_nothing() {
    let mut io = FramedRead::new(Mock::new(vec![]));

    assert_eq!(io.poll().unwrap(), Ready(None));
}

#[test]
fn read_single_frame_one_packet() {
    let mut io = FramedRead::new(Mock::new(vec![data(b"\x00\x00\x00\x09abcdefghi")]));

    assert_eq!(io.poll().unwrap(), Ready(Some(frame(b"abcdefghi"))));
    assert_eq!(io.poll().unwrap(), Ready(None));
}

#[test]
fn read_single_frame_one_packet_little_endian() {
    let mut io = Builder::new()
        .little_endian()
        .new_read(Mock::new(vec![data(b"\x09\x00\x00\x00abcdefghi")]));

    assert_eq!(io.poll().unwrap(), Ready(Some(frame(b"abcdefghi"))));
    assert_eq!(io.poll().unwrap(), Ready(None));
}

#[test]
fn read_single_frame_one_packet_varint() {
    let mut io = Builder::new()
        .varint()
        .new_read(Mock::new(vec![data(b"\x09abcdefghi")]));

    assert_eq!(io.poll().unwrap(), Ready(Some(frame(b"abcdefghi"))));
    assert_eq!(io.poll().unwrap(), Ready(None));
}

#[test]
fn read_single_frame_one_packet_multibyte_varint() {
    let mut buf = [0x33u8; 302];
    buf[0] = 0b10101100;
    buf[1] = 0b00000010;
    let mut io = Builder::new().varint().new_read(Mock::new(vec![data(&buf[..])]));

    assert_eq!(io.poll().unwrap(), Ready(Some(frame(&buf[2..]))));
    assert_eq!(io.poll().unwrap(), Ready(None));
}

#[test]
fn read_single_multi_frame_one_packet() {
    let mut d: Vec<u8> = vec![];
    d.extend_from_slice(b"\x00\x00\x00\x09abcdefghi");
    d.extend_from_slice(b"\x00\x00\x00\x03123");
    d.extend_from_slice(b"\x00\x00\x00\x0bhello world");

    let mut io = FramedRead::new(Mock::new(vec![data(&d)]));

    assert_eq!(io.poll().unwrap(), Ready(Some(frame(b"abcdefghi"))));
    assert_eq!(io.poll().unwrap(), Ready(Some(frame(b"123"))));
    assert_eq!(io.poll().unwrap(), Ready(Some(frame(b"hello world"))));
    assert_eq!(io.poll().unwrap(), Ready(None));
}

#[test]
fn read_single_frame_multi_packet() {
    let mut io = FramedRead::new(Mock::new(vec![
        data(b"\x00\x00"),
        data(b"\x00\x09abc"),
        data(b"defghi"),
    ]));

    assert_eq!(io.poll().unwrap(), Ready(Some(frame(b"abcdefghi"))));
    assert_eq!(io.poll().unwrap(), Ready(None));
}

#[test]
fn read_multi_frame_multi_packet() {
    let mut io = FramedRead::new(Mock::new(vec![
        data(b"\x00\x00"),
        data(b"\x00\x09abc"),
        data(b"defghi"),
        data(b"\x00\x00\x00\x0312"),
        data(b"3\x00\x00\x00\x0bhello world"),
    ]));

    assert_eq!(io.poll().unwrap(), Ready(Some(frame(b"abcdefghi"))));
    assert_eq!(io.poll().unwrap(), Ready(Some(frame(b"123"))));
    assert_eq!(io.poll().unwrap(), Ready(Some(frame(b"hello world"))));
    assert_eq!(io.poll().unwrap(), Ready(None));
}

#[test]
fn read_single_frame_multi_packet_wait() {
    let mut io = FramedRead::new(Mock::new(vec![
        data(b"\x00\x00"),
        would_block(),
        data(b"\x00\x09abc"),
        would_block(),
        data(b"defghi"),
        would_block(),
    ]));

    assert_eq!(io.poll().unwrap(), NotReady);
    assert_eq!(io.poll().unwrap(), NotReady);
    assert_eq!(io.poll().unwrap(), Ready(Some(frame(b"abcdefghi"))));
    assert_eq!(io.poll().unwrap(), NotReady);
    assert_eq!(io.poll().unwrap(), Ready(None));
}

#[test]
fn read_multi_frame_multi_packet_wait() {
    let mut io = FramedRead::new(Mock::new(vec![
        data(b"\x00\x00"),
        would_block(),
        data(b"\x00\x09abc"),
        would_block(),
        data(b"defghi"),
        would_block(),
        data(b"\x00\x00\x00\x0312"),
        would_block(),
        data(b"3\x00\x00\x00\x0bhello world"),
        would_block(),
    ]));

    assert_eq!(io.poll().unwrap(), NotReady);
    assert_eq!(io.poll().unwrap(), NotReady);
    assert_eq!(io.poll().unwrap(), Ready(Some(frame(b"abcdefghi"))));
    assert_eq!(io.poll().unwrap(), NotReady);
    assert_eq!(io.poll().unwrap(), NotReady);
    assert_eq!(io.poll().unwrap(), Ready(Some(frame(b"123"))));
    assert_eq!(io.poll().unwrap(), Ready(Some(frame(b"hello world"))));
    assert_eq!(io.poll().unwrap(), NotReady);
    assert_eq!(io.poll().unwrap(), Ready(None));
}

#[test]
fn read_incomplete_head() {
    let mut io = FramedRead::new(Mock::new(vec![data(b"\x00\x00")]));

    assert!(io.poll().is_err());
}

#[test]
fn read_incomplete_head_multi() {
    let mut io = FramedRead::new(Mock::new(vec![
        would_block(),
        data(b"\x00"),
        would_block(),
    ]));

    assert_eq!(io.poll().unwrap(), NotReady);
    assert_eq!(io.poll().unwrap(), NotReady);
    assert!(io.poll().is_err());
}

#[test]
fn read_incomplete_payload() {
    let mut io = FramedRead::new(Mock::new(vec![
        data(b"\x00\x00\x00\x09ab"),
        would_block(),
        data(b"cd"),
        would_block(),
    ]));

    assert_eq!(io.poll().unwrap(), NotReady);
    assert_eq!(io.poll().unwrap(), NotReady);
    assert!(io.poll().is_err());
}

#[test]
fn read_max_frame_len() {
    let mut io = Builder::new()
        .max_frame_length(5)
        .new_read(Mock::new(vec![data(b"\x00\x00\x00\x09abcdefghi")]));

    assert_eq!(io.poll().unwrap_err(), ErrorKind::InvalidData);
}

#[test]
fn update_max_frame_len_at_rest() {
    let mut io = Builder::new().new_read(Mock::new(vec![
        data(b"\x00\x00\x00\x09abcdefghi"),
        data(b"\x00\x00\x00\x09abcdefghi"),
    ]));

    assert_eq!(io.poll().unwrap(), Ready(Some(frame(b"abcdefghi"))));
    io.set_max_frame_length(5);
    assert_eq!(io.poll().unwrap_err(), ErrorKind::InvalidData);
}

#[test]
fn update_max_frame_len_in_flight() {
    let mut io = Builder::new().new_read(Mock::new(vec![
        data(b"\x00\x00\x00\x09abcd"),
        would_block(),
        data(b"efghi"),
        data(b"\x00\x00\x00\x09abcdefghi"),
    ]));

    assert_eq!(io.poll().unwrap(), NotReady);
    io.set_max_frame_length(5);
    assert_eq!(io.poll().unwrap(), Ready(Some(frame(b"abcdefghi"))));
    assert_eq!(io.poll().unwrap_err(), ErrorKind::InvalidData);
}

#[test]
fn read_one_byte_length_field() {
    let mut io = Builder::new()
        .length_field_length(1)
        .new_read(Mock::new(vec![data(b"\x09abcdefghi")]));

    assert_eq!(io.poll().unwrap(), Ready(Some(frame(b"abcdefghi"))));
    assert_eq!(io.poll().unwrap(), Ready(None));
}

#[test]
fn read_header_offset() {
    let mut io = Builder::new()
        .length_field_length(2)
        .length_field_offset(4)
        .new_read(Mock::new(vec![data(b"zzzz\x00\x09abcdefghi")]));

    assert_eq!(io.poll().unwrap(), Ready(Some(frame(b"abcdefghi"))));
    assert_eq!(io.poll().unwrap(), Ready(None));
}

#[test]
fn read_single_multi_frame_one_packet_skip_none_adjusted() {
    let mut d: Vec<u8> = vec![];
    d.extend_from_slice(b"xx\x00\x09abcdefghi");
    d.extend_from_slice(b"yy\x00\x03123");
    d.extend_from_slice(b"zz\x00\x0bhello world");

    let mut io = Builder::new()
        .length_field_length(2)
        .length_field_offset(2)
        .num_skip(0)
        .length_adjustment(4)
        .new_read(Mock::new(vec![data(&d)]));

    assert_eq!(io.poll().unwrap(), Ready(Some(frame(b"xx\x00\x09abcdefghi"))));
    assert_eq!(io.poll().unwrap(), Ready(Some(frame(b"yy\x00\x03123"))));
    assert_eq!(io.poll().unwrap(), Ready(Some(frame(b"zz\x00\x0bhello world"))));
    assert_eq!(io.poll().unwrap(), Ready(None));
}

#[test]
fn read_single_multi_frame_one_packet_length_includes_head() {
    let mut d: Vec<u8> = vec![];
    d.extend_from_slice(b"\x00\x0babcdefghi");
    d.extend_from_slice(b"\x00\x05123");
    d.extend_from_slice(b"\x00\x0dhello world");

    let mut io = Builder::new()
        .length_field_length(2)
        .length_adjustment(-2)
        .new_read(Mock::new(vec![data(&d)]));

    assert_eq!(io.poll().unwrap(), Ready(Some(frame(b"abcdefghi"))));
    assert_eq!(io.poll().unwrap(), Ready(Some(frame(b"123"))));
    assert_eq!(io.poll().unwrap(), Ready(Some(frame(b"hello world"))));
    assert_eq!(io.poll().unwrap(), Ready(None));
}

#[test]
fn write_single_frame_length_adjusted() {
    let mut io = Builder::new().length_adjustment(-2).new_write(Mock::new(vec![
        data(b"\x00\x00\x00\x0b"),
        data(b"abcdefghi"),
        MockCall::Flush,
    ]));
    assert!(io.start_send(b"abcdefghi".to_vec()).unwrap().is_ready());
    assert!(io.poll_complete().unwrap().is_ready());
    assert!(io.get_ref().calls.is_empty());
}

#[test]
fn write_nothing_yields_nothing() {
    let mut io = FramedWrite::new(Mock::new(vec![]));
    assert!(io.poll_complete().unwrap().is_ready());
}

#[test]
fn write_single_frame_one_packet() {
    let mut io = FramedWrite::new(Mock::new(vec![
        data(b"\x00\x00\x00\x09"),
        data(b"abcdefghi"),
        MockCall::Flush,
    ]));

    assert!(io.start_send(b"abcdefghi".to_vec()).unwrap().is_ready());
    assert!(io.poll_complete().unwrap().is_ready());
    assert!(io.get_ref().calls.is_empty());
}

#[test]
fn write_single_multi_frame_one_packet() {
    let mut io = FramedWrite::new(Mock::new(vec![
        data(b"\x00\x00\x00\x09"),
        data(b"abcdefghi"),
        data(b"\x00\x00\x00\x03"),
        data(b"123"),
        data(b"\x00\x00\x00\x0b"),
        data(b"hello world"),
        MockCall::Flush,
    ]));

    assert!(io.start_send(b"abcdefghi".to_vec()).unwrap().is_ready());
    assert!(io.start_send(b"123".to_vec()).unwrap().is_ready());
    assert!(io.start_send(b"hello world".to_vec()).unwrap().is_ready());
    assert!(io.poll_complete().unwrap().is_ready());
    assert!(io.get_ref().calls.is_empty());
}

#[test]
fn write_single_multi_frame_multi_packet() {
    let mut io = FramedWrite::new(Mock::new(vec![
        data(b"\x00\x00\x00\x09"),
        data(b"abcdefghi"),
        MockCall::Flush,
        data(b"\x00\x00\x00\x03"),
        data(b"123"),
        MockCall::Flush,
        data(b"\x00\x00\x00\x0b"),
        data(b"hello world"),
        MockCall::Flush,
    ]));

    assert!(io.start_send(b"abcdefghi".to_vec()).unwrap().is_ready());
    assert!(io.poll_complete().unwrap().is_ready());
    assert!(io.start_send(b"123".to_vec()).unwrap().is_ready());
    assert!(io.poll_complete().unwrap().is_ready());
    assert!(io.start_send(b"hello world".to_vec()).unwrap().is_ready());
    assert!(io.poll_complete().unwrap().is_ready());
    assert!(io.get_ref().calls.is_empty());
}

#[test]
fn write_single_frame_would_block() {
    let mut io = FramedWrite::new(Mock::new(vec![
        would_block(),
        data(b"\x00\x00"),
        would_block(),
        data(b"\x00\x09"),
        data(b"abcdefghi"),
        MockCall::Flush,
    ]));

    assert!(io.start_send(b"abcdefghi".to_vec()).unwrap().is_ready());
    assert!(!io.poll_complete().unwrap().is_ready());
    assert!(!io.poll_complete().unwrap().is_ready());
    assert!(io.poll_complete().unwrap().is_ready());

    assert!(io.get_ref().calls.is_empty());
}

#[test]
fn write_single_frame_little_endian() {
    let mut io = Builder::new().little_endian().new_write(Mock::new(vec![
        data(b"\x09\x00\x00\x00"),
        data(b"abcdefghi"),
        MockCall::Flush,
    ]));

    assert!(io.start_send(b"abcdefghi".to_vec()).unwrap().is_ready());
    assert!(io.poll_complete().unwrap().is_ready());
    assert!(io.get_ref().calls.is_empty());
}

#[test]
fn write_single_frame_varint() {
    let mut io = Builder::new().varint().new_write(Mock::new(vec![
        data(b"\x09"),
        data(b"abcdefghi"),
        MockCall::Flush,
    ]));

    assert!(io.start_send(b"abcdefghi".to_vec()).unwrap().is_ready());
    assert!(io.poll_complete().unwrap().is_ready());
    assert!(io.get_ref().calls.is_empty());
}

#[test]
fn write_single_frame_multibyte_varint() {
    let mut io = Builder::new().varint().new_write(Mock::new(vec![
        MockCall::Data(vec![0b10101100, 0b00000010]),
        MockCall::Data(vec![0x33u8; 300]),
        MockCall::Flush,
    ]));

    let d = vec![0x33u8; 300];
    assert!(io.start_send(d).unwrap().is_ready());
    assert!(io.poll_complete().unwrap().is_ready());
    assert!(io.get_ref().calls.is_empty());
}

#[test]
fn write_single_frame_with_short_length_field() {
    let mut io = Builder::new().length_field_length(1).new_write(Mock::new(vec![
        data(b"\x09"),
        data(b"abcdefghi"),
        MockCall::Flush,
    ]));

    assert!(io.start_send(b"abcdefghi".to_vec()).unwrap().is_ready());
    assert!(io.poll_complete().unwrap().is_ready());
    assert!(io.get_ref().calls.is_empty());
}

// ===== Additional coverage =====

#[test]
fn roundtrip_one_frame_default_codec() {
    let mut codec = Builder::new().new_codec();
    let mut buf = BytesMut::new();
    assert!(codec.encode(b"abcdefghi", &mut buf).is_ok());
    assert_eq!(&buf[..], b"\x00\x00\x00\x09abcdefghi");
    let got = codec.decode(&mut buf).unwrap();
    assert_eq!(got, Some(frame(b"abcdefghi")));
    assert!(buf.is_empty());
}

#[test]
fn roundtrip_one_frame_varint_codec() {
    let mut codec = Builder::new().varint().new_codec();
    let mut buf = BytesMut::new();
    let payload = vec![0x33u8; 300];
    assert!(codec.encode(&payload, &mut buf).is_ok());
    assert_eq!(&buf[..2], &[0b10101100, 0b00000010]);
    let got = codec.decode(&mut buf).unwrap();
    assert_eq!(got, Some(BytesMut::from(&payload[..])));
    assert!(buf.is_empty());
}

#[test]
fn read_frame_len_at_limit() {
    let mut io = Builder::new()
        .max_frame_length(9)
        .new_read(Mock::new(vec![data(b"\x00\x00\x00\x09abcdefghi")]));

    assert_eq!(io.poll().unwrap(), Ready(Some(frame(b"abcdefghi"))));
    assert_eq!(io.poll().unwrap(), Ready(None));
}

#[test]
fn read_frame_len_one_over_limit() {
    let mut io = Builder::new()
        .max_frame_length(8)
        .new_read(Mock::new(vec![data(b"\x00\x00\x00\x09abcdefghi")]));

    assert_eq!(io.poll().unwrap_err(), ErrorKind::InvalidData);
}

#[test]
fn read_varint_too_long() {
    let mut io = Builder::new()
        .varint()
        .new_read(Mock::new(vec![MockCall::Data(vec![0x80u8; 11])]));

    assert_eq!(io.poll().unwrap_err(), ErrorKind::InvalidData);
}

#[test]
fn write_payload_too_long_for_field() {
    let mut io = Builder::new()
        .length_field_length(1)
        .new_write(Mock::new(vec![]));

    let payload = vec![0x33u8; 300];
    assert_eq!(io.start_send(payload).unwrap_err(), ErrorKind::InvalidInput);
}

#[test]
fn write_zero_is_an_error() {
    let mut io = FramedWrite::new(Mock::new(vec![]));

    assert!(io.start_send(b"abcdefghi".to_vec()).unwrap().is_ready());
    assert_eq!(io.poll_complete().unwrap_err(), ErrorKind::WriteZero);
}

#[test]
fn write_negative_adjusted_length() {
    let mut io = Builder::new()
        .length_adjustment(5)
        .new_write(Mock::new(vec![]));

    assert_eq!(io.start_send(b"abc".to_vec()).unwrap_err(), ErrorKind::InvalidInput);
}
