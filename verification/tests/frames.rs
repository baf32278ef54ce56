use deuter::error::ErrorKind;
use deuter::frame::unknown::UnknownFrame;
use deuter::frame::{Flags, Frame, FrameIter, FrameKind, ReadFrame, WriteFrame};
use deuter::io::SliceReader;
use deuter::StreamId;

#[test]
fn test_iter_empty_slice() {
    assert!(FrameIter::new(&[], 100).next().is_none());
}

#[test]
fn test_iter_incomplete_frame_slice() {
    assert!(FrameIter::new(&[0, 0, 0, 1], 100).next().is_none());
}

#[test]
fn test_iter_complete_frame_slice() {
    let f = vec![0, 0, 4,     // length
                 1,           // type headers
                 0,           // flags
                 0, 0, 0, 1,  // stream id
                 0, 1, 2, 3,  // fragment
                ];
    let mut iter = FrameIter::new(&f, 100);
    assert!(iter.next().is_some());
    assert!(iter.next().is_none());
}

#[test]
fn test_iter_multiple_frames() {
    let f = vec![0, 0, 4,     // length
                 1,           // type headers
                 0,           // flags
                 0, 0, 0, 1,  // stream id
                 0, 1, 2, 3,  // fragment
                              // ---
                 0, 0, 3,     // length
                 11,          // type headers
                 0,           // flags
                 0, 0, 0, 2,  // stream id
                 3, 2, 1,     // fragment
                ];
    let mut iter = FrameIter::new(&f, 100);
    let frame1 = match iter.next().unwrap().unwrap() {
        FrameKind::Headers(frame) => frame,
        _ => panic!("Wrong frame"),
    };
    assert_eq!(frame1.stream_id(), 1);
    let frame2 = match iter.next().unwrap().unwrap() {
        FrameKind::Unknown(frame) => frame,
        _ => panic!("Wrong frame"),
    };
    assert_eq!(frame2.stream_id(), 2);
    assert!(iter.next().is_none());
}

#[test]
fn test_iter_max_payload_error() {
    assert_eq!(FrameIter::new(&[0, 0, 210, 1], 100).next().unwrap().err().unwrap().kind(),
               ErrorKind::FrameSize);
}

#[test]
fn test_unknown_payload() {
    let frame = UnknownFrame::new(StreamId::new(1), Flags::empty(), 0xFF, vec![1, 2, 3]);
    let mut b = Vec::new();
    b.write_frame(frame.clone()).unwrap();
    let expected = vec![0, 0, 3,    // length
                        255,        // type
                        0,          // flags
                        0, 0, 0, 1, // stream id
                        1, 2, 3,    // data
                       ];
    assert_eq!(b, expected);
    let mut sl = SliceReader::new(&b[..]);
    let res = match sl.read_frame().unwrap() {
        FrameKind::Unknown(frame) => frame,
        _ => panic!("wrong frame"),
    };
    assert_eq!(frame, res);
}
