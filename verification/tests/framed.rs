use bytes::BytesMut;
use tokio_io::framed::framed;
use tokio_io::length_delimited::Builder;
use tokio_io::mock::{Mock, MockCall};
use tokio_io::Async::Ready;

#[test]
fn framed_reads_frames_and_flushes() {
    let codec = Builder::new().new_codec();
    let mut io = framed(
        Mock::new(vec![MockCall::Data(b"\x00\x00\x00\x03abc".to_vec())]),
        codec,
    );
    assert_eq!(io.poll().unwrap(), Ready(Some(BytesMut::from(&b"abc"[..]))));
    assert_eq!(io.poll().unwrap(), Ready(None));
}

#[test]
fn framed_writes_frames() {
    let codec = Builder::new().new_codec();
    let mut io = framed(
        Mock::new(vec![
            MockCall::Data(b"\x00\x00\x00\x03abc".to_vec()),
            MockCall::Flush,
        ]),
        codec,
    );
    assert!(io.start_send(b"abc".to_vec()).unwrap().is_ready());
    assert!(io.poll_complete().unwrap().is_ready());
    assert!(io.get_ref().calls.is_empty());
}
