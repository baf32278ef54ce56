use deuter::frame::headers::HeadersFrame;
use deuter::frame::priority::PriorityFrame;
use deuter::frame::{FrameKind, ReadFrame, WriteFrame};
use deuter::io::{ByteReader, SliceReader};
use deuter::StreamId;

#[test]
fn test_empty_headers_frame() {
    let frame = HeadersFrame::new(StreamId::new(1));
    let mut b = Vec::new();
    b.write_frame(frame.clone()).unwrap();
    assert_eq!(b, [0, 0, 0, 1, 0, 0, 0, 0, 1]);
    let mut sl = SliceReader::new(&b[..]);
    let res = match sl.read_frame().unwrap() {
        FrameKind::Headers(frame) => frame,
        _ => panic!("Wrong frame type"),
    };
    assert_eq!(frame, res);
}

#[test]
fn test_priority_headers_frame() {
    let priority = PriorityFrame::new(StreamId::new(1));
    let frame = HeadersFrame::new(StreamId::new(1)).priority(priority);
    let mut b = Vec::new();
    b.write_frame(frame.clone()).unwrap();
    let expected = vec![0, 0, 5,    // length
                        1,          // type
                        0x20,       // flags
                        0, 0, 0, 1, // stream id
                        0, 0, 0, 0, // dependency
                        15,         // weight
                       ];
    assert_eq!(b, expected);
    let mut sl = SliceReader::new(&b[..]);
    let res = match sl.read_frame().unwrap() {
        FrameKind::Headers(frame) => frame,
        _ => panic!("Wrong frame type"),
    };
    assert_eq!(frame, res);
}

#[test]
fn test_fragment_in_headers_frame() {
    let fragment = vec![0, 1, 2, 3, 4, 5, 6, 7, 8, 9];
    let frame = HeadersFrame::new(StreamId::new(1)).fragment(fragment);
    let mut b = Vec::new();
    b.write_frame(frame.clone()).unwrap();
    let expected = vec![0, 0, 10,   // length
                        1,          // type
                        0,          // flags
                        0, 0, 0, 1, // stream id
                        0, 1, 2, 3, 4, 5, 6, 7, 8, 9, // fragment
                       ];
    assert_eq!(b, expected);
    let mut sl = SliceReader::new(&b[..]);
    let res = match sl.read_frame().unwrap() {
        FrameKind::Headers(frame) => frame,
        _ => panic!("Wrong frame type"),
    };
    assert_eq!(frame, res);
}

#[test]
fn test_flags_in_headers_frame() {
    let frame = HeadersFrame::new(StreamId::new(1)).end_headers().end_stream();
    let mut b = Vec::new();
    b.write_frame(frame.clone()).unwrap();
    let expected = vec![0, 0, 0,    // length
                        1,          // type
                        5,          // flags
                        0, 0, 0, 1, // stream id
                       ];
    assert_eq!(b, expected);
    let mut sl = SliceReader::new(&b[..]);
    let res = match sl.read_frame().unwrap() {
        FrameKind::Headers(frame) => frame,
        _ => panic!("Wrong frame type"),
    };
    assert_eq!(frame, res);
}

#[test]
fn test_padding_headers_frame() {
    let b = vec![0, 0, 8,          // length
                 1,                // type
                 8,                // flags
                 0, 0, 0, 1,       // stream id
                 3,                // padding length
                 0, 1, 2, 3,       // fragment
                 0xFF, 0xFF, 0xFF, // padding
                 4, 4, 4, 4, 4,    // make sure we can read further
                ];
    let mut sl = SliceReader::new(&b[..]);
    let res = match sl.read_frame().unwrap() {
        FrameKind::Headers(frame) => frame,
        _ => panic!("Wrong frame type"),
    };
    assert_eq!(res.header_block_fragment(), [0, 1, 2, 3]);
    let buf = sl.read_exact(4).unwrap();
    assert_eq!(buf, [4, 4, 4, 4]);
}
