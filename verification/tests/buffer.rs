use deuter::buffer::{AsyncBufReader, FrameReader};
use deuter::frame::headers::HeadersFrame;
use deuter::frame::{Frame, FrameKind, WriteFrame};
use deuter::io::SliceReader;
use deuter::mock::MockStream;
use deuter::StreamId;

#[test]
fn test_index() {
    let data = [1, 2, 3, 4, 5, 6];
    let b = SliceReader::new(&data);
    let mut r = AsyncBufReader::new(b);
    r.fill_buf().unwrap();
    assert_eq!(r.at(0), 1);
    assert_eq!(r.range(1, 3), [2, 3]);
    assert_eq!(r.prefix(3), [1, 2, 3]);
    assert_eq!(r.suffix(1), [2, 3, 4, 5, 6]);
    let mut d = [0; 2];
    r.read(&mut d);
    assert_eq!(r.at(0), 3);
    assert_eq!(r.range(1, 3), [4, 5]);
    assert_eq!(r.prefix(3), [3, 4, 5]);
    assert_eq!(r.suffix(1), [4, 5, 6]);
}

#[test]
fn test_iter_frames() {
    let (mut tx, conn) = MockStream::new();
    let mut r = FrameReader::new(conn, 100);

    assert!(r.frames().unwrap().next().is_none());
    tx.write_frame(HeadersFrame::new(StreamId::new(1))).unwrap();
    tx.write_frame(HeadersFrame::new(StreamId::new(2))).unwrap();
    tx.deliver(r.get_mut());
    let mut iter = r.frames().unwrap();
    let frame1 = match iter.next().unwrap().unwrap() {
        FrameKind::Headers(frame) => frame,
        _ => panic!("Wrong frame"),
    };
    assert_eq!(frame1.stream_id(), 1);
    let frame2 = match iter.next().unwrap().unwrap() {
        FrameKind::Headers(frame) => frame,
        _ => panic!("Wrong frame"),
    };
    assert_eq!(frame2.stream_id(), 2);
    assert!(iter.next().is_none());
}
