use deuter::error::ErrorKind;
use deuter::frame::headers::HeadersFrame;
use deuter::frame::priority::PriorityFrame;
use deuter::frame::settings::{parse_payload, parse_setting, Setting, SettingsFrame};
use deuter::frame::unknown::UnknownFrame;
use deuter::frame::{
    Flags, Frame, FrameHeader, FrameIter, FrameKind, ReadFrame, WriteFrame, FLAG_ACK,
    FLAG_END_HEADERS, FLAG_PADDED, FLAG_PRIORITY,
};
use deuter::io::{ByteReader, SliceReader};
use deuter::StreamId;

fn read(bytes: &[u8]) -> Result<FrameKind, ErrorKind> {
    let mut reader = SliceReader::new(bytes);
    reader.read_frame().map_err(|e| e.kind())
}

fn written<F: Frame>(frame: F) -> Vec<u8> {
    let mut out = Vec::new();
    out.write_frame(frame).unwrap();
    out
}

#[test]
fn octets_of_empty_settings() {
    match read(&[0x00, 0x00, 0x00, 0x04, 0x00, 0x00, 0x00, 0x00, 0x00]) {
        Ok(FrameKind::Settings(frame)) => {
            assert!(!frame.is_ack());
            assert_eq!(frame.settings(), vec![]);
        }
        _ => panic!("Wrong frame type"),
    }
}

#[test]
fn octets_of_settings_ack() {
    match read(&[0x00, 0x00, 0x00, 0x04, 0x01, 0x00, 0x00, 0x00, 0x00]) {
        Ok(FrameKind::Settings(frame)) => {
            assert!(frame.is_ack());
            assert_eq!(frame.settings(), vec![]);
        }
        _ => panic!("Wrong frame type"),
    }
}

#[test]
fn octets_of_settings_ack_with_payload() {
    let bytes = [
        0x00, 0x00, 0x06, 0x04, 0x01, 0x00, 0x00, 0x00, 0x00, 0x00, 0x02, 0x00, 0x00, 0x00, 0x01,
    ];
    assert_eq!(read(&bytes).unwrap_err(), ErrorKind::FrameSize);
}

#[test]
fn octets_of_settings_with_enable_push_100() {
    let bytes = [
        0x00, 0x00, 0x06, 0x04, 0x00, 0x00, 0x00, 0x00, 0x00, 0x00, 0x02, 0x00, 0x00, 0x00, 0x64,
    ];
    assert_eq!(read(&bytes).unwrap_err(), ErrorKind::Protocol);
}

#[test]
fn octets_of_priority() {
    let bytes = [0x00, 0x00, 0x05, 0x02, 0x00, 0x00, 0x00, 0x00, 0x01, 0x00, 0x00, 0x00, 0x00, 0x0F];
    match read(&bytes) {
        Ok(FrameKind::Priority(frame)) => {
            assert_eq!(frame.stream_id().value(), 1);
            assert!(!frame.is_exclusive());
            assert_eq!(frame.depends_on().value(), 0);
            assert_eq!(frame.weight(), 16);
        }
        _ => panic!("Wrong frame type"),
    }
}

#[test]
fn octets_of_exclusive_priority() {
    let bytes = [0x00, 0x00, 0x05, 0x02, 0x00, 0x00, 0x00, 0x00, 0x01, 0x80, 0x00, 0x00, 0x02, 0x0F];
    match read(&bytes) {
        Ok(FrameKind::Priority(frame)) => {
            assert_eq!(frame.stream_id().value(), 1);
            assert!(frame.is_exclusive());
            assert_eq!(frame.depends_on().value(), 2);
            assert_eq!(frame.weight(), 16);
        }
        _ => panic!("Wrong frame type"),
    }
}

#[test]
fn octets_of_padded_headers() {
    let bytes = [
        0x00, 0x00, 0x08, 0x01, 0x08, 0x00, 0x00, 0x00, 0x01, 0x03, 0x00, 0x01, 0x02, 0x03, 0xFF,
        0xFF, 0xFF, 0x04, 0x04, 0x04, 0x04,
    ];
    let mut reader = SliceReader::new(&bytes);
    match reader.read_frame().unwrap() {
        FrameKind::Headers(frame) => {
            assert_eq!(frame.stream_id().value(), 1);
            assert_eq!(frame.header_block_fragment(), [0, 1, 2, 3]);
            assert!(frame.priority_record().is_none());
            assert!(!frame.is_end_headers());
            assert!(!frame.is_end_stream());
        }
        _ => panic!("Wrong frame type"),
    }
    assert_eq!(reader.remaining(), 4);
    assert_eq!(reader.read_exact(4).unwrap(), [4, 4, 4, 4]);
}

#[test]
fn octets_of_unknown_type() {
    let bytes = [0x00, 0x00, 0x03, 0xFF, 0x00, 0x00, 0x00, 0x00, 0x01, 0x01, 0x02, 0x03];
    match read(&bytes) {
        Ok(FrameKind::Unknown(frame)) => {
            assert_eq!(frame.frame_type(), 0xFF);
            assert_eq!(frame.stream_id().value(), 1);
            assert_eq!(frame.payload(), [1, 2, 3]);
            assert_eq!(written(frame), bytes);
        }
        _ => panic!("Wrong frame type"),
    }
}

#[test]
fn round_trip_of_every_variant() {
    let mut settings = SettingsFrame::default();
    settings.add_setting(Setting::MaxFrameSize(16384));
    settings.add_setting(Setting::EnablePush(true));
    settings.add_setting(Setting::InitialWindowSize(0x7fff_ffff));
    settings.add_setting(Setting::MaxFrameSize(16777215));
    let priority = PriorityFrame::new(StreamId::new(7)).dependency(StreamId::new(0x7fff_ffff));
    let headers = HeadersFrame::new(StreamId::new(7))
        .priority(priority.exclusive())
        .fragment(vec![9, 8, 7])
        .end_headers();
    let unknown = UnknownFrame::new(StreamId::new(3), Flags::from_bits(0xff), 0x9, vec![]);

    assert_eq!(read(&written(settings.clone())).unwrap(), FrameKind::Settings(settings));
    assert_eq!(read(&written(priority)).unwrap(), FrameKind::Priority(priority));
    assert_eq!(read(&written(headers.clone())).unwrap(), FrameKind::Headers(headers));
    assert_eq!(read(&written(unknown.clone())).unwrap(), FrameKind::Unknown(unknown));
}

#[test]
fn frame_of_any_variant_is_written_as_its_variant() {
    let bytes = [
        0, 0, 6, 4, 0, 0, 0, 0, 0, 0, 3, 0, 0, 0, 9, // settings
        0, 0, 5, 2, 0, 0, 0, 0, 3, 0, 0, 0, 1, 7, // priority
        0, 0, 1, 1, 4, 0, 0, 0, 3, 0xaa, // headers
        0, 0, 2, 0x77, 0x10, 0, 0, 0, 9, 1, 2, // unknown
    ];
    let mut reader = SliceReader::new(&bytes);
    let mut out = Vec::new();
    let mut types = Vec::new();
    while reader.remaining() > 0 {
        let frame = reader.read_frame().unwrap();
        types.push(frame.frame_type());
        out.write_frame(frame).unwrap();
    }
    assert_eq!(types, [4, 2, 1, 0x77]);
    assert_eq!(out, bytes);
    let frame = FrameKind::Priority(PriorityFrame::new(StreamId::new(4)));
    assert_eq!(frame.payload_len(), 5);
    assert_eq!(frame.flags().bits(), 0);
    assert_eq!(frame.stream_id().value(), 4);
}

#[test]
fn headers_with_priority_and_fragment_on_the_wire() {
    let priority = PriorityFrame::new(StreamId::new(5)).dependency(StreamId::new(3)).exclusive();
    let headers = HeadersFrame::new(StreamId::new(5))
        .priority(priority)
        .fragment(vec![0xaa, 0xbb])
        .end_stream();
    let expected = [
        0, 0, 7, 1, 0x21, 0, 0, 0, 5, 0x80, 0, 0, 3, 15, 0xaa, 0xbb,
    ];
    assert_eq!(written(headers.clone()), expected);
    assert_eq!(headers.payload_len(), 7);
    assert_eq!(headers.flags().bits(), 0x21);
}

#[test]
fn padded_frame_is_written_without_padding() {
    let padded = [0, 0, 11, 1, 0x2c, 0, 0, 0, 1, 2, 0, 0, 0, 9, 255, 7, 7, 7, 0, 0];
    let frame = match read(&padded).unwrap() {
        FrameKind::Headers(frame) => frame,
        _ => panic!("Wrong frame type"),
    };
    assert_eq!(frame.header_block_fragment(), [7, 7, 7]);
    assert!(frame.is_end_headers());
    let record = frame.priority_record().unwrap();
    assert_eq!(record.depends_on().value(), 9);
    assert_eq!(record.weight(), 256);
    assert_eq!(record.stream_id().value(), 1);
    let plain = written(frame.clone());
    assert_eq!(plain, [0, 0, 8, 1, 0x24, 0, 0, 0, 1, 0, 0, 0, 9, 255, 7, 7, 7]);
    assert_eq!(read(&plain).unwrap(), FrameKind::Headers(frame));
}

#[test]
fn header_round_trip_and_reserved_bit() {
    let bytes = [0xff, 0xff, 0xff, 0x42, 0xa5, 0xff, 0xff, 0xff, 0xff];
    let mut reader = SliceReader::new(&bytes);
    let header = FrameHeader::from_reader(&mut reader).unwrap();
    assert_eq!(header.payload_len(), 0xff_ffff);
    assert_eq!(header.frame_type(), 0x42);
    assert_eq!(header.flags().bits(), 0xa5);
    assert_eq!(header.stream_id().value(), 0x7fff_ffff);
    let mut out = Vec::new();
    header.into_writer(&mut out);
    assert_eq!(out, [0xff, 0xff, 0xff, 0x42, 0xa5, 0x7f, 0xff, 0xff, 0xff]);
    let mut again = SliceReader::new(&out);
    assert_eq!(FrameHeader::from_reader(&mut again).unwrap(), header);
}

#[test]
fn header_of_exact_values() {
    let header =
        FrameHeader::from_parts(0x010203, 4, Flags::from_bits(FLAG_ACK), StreamId::new(0x0a0b0c0d))
            .unwrap();
    let mut out = Vec::new();
    header.into_writer(&mut out);
    assert_eq!(out, [1, 2, 3, 4, 1, 0x0a, 0x0b, 0x0c, 0x0d]);
    assert!(FrameHeader::from_parts(0x100_0000, 4, Flags::empty(), StreamId::new(0)).is_none());
    assert!(FrameHeader::from_parts(0xff_ffff, 4, Flags::empty(), StreamId::new(0)).is_some());
}

#[test]
fn short_header_is_internal_and_uses_up_the_reader() {
    let bytes = [0, 0, 0, 4, 0, 0, 0, 0];
    let mut reader = SliceReader::new(&bytes);
    assert_eq!(reader.read_frame().unwrap_err().kind(), ErrorKind::Internal);
    assert_eq!(reader.remaining(), 0);
}

#[test]
fn short_payload_is_internal() {
    assert_eq!(read(&[0, 0, 4, 0xee, 0, 0, 0, 0, 1, 1, 2, 3]).unwrap_err(), ErrorKind::Internal);
    assert_eq!(read(&[0, 0, 4, 1, 0, 0, 0, 0, 1, 1, 2, 3]).unwrap_err(), ErrorKind::Internal);
    assert_eq!(read(&[0, 0, 5, 2, 0, 0, 0, 0, 1, 1, 2, 3]).unwrap_err(), ErrorKind::Internal);
    assert_eq!(read(&[0, 0, 6, 4, 0, 0, 0, 0, 0, 0, 1, 0]).unwrap_err(), ErrorKind::Internal);
}

#[test]
fn payload_over_the_limit_is_frame_size() {
    let bytes = [0, 0, 4, 0xee, 0, 0, 0, 0, 1, 1, 2, 3, 4];
    let mut reader = SliceReader::new(&bytes);
    assert_eq!(reader.read_frame_checked(3).unwrap_err().kind(), ErrorKind::FrameSize);
    assert_eq!(reader.remaining(), 4);
    let mut reader = SliceReader::new(&bytes);
    assert!(reader.read_frame_checked(4).is_ok());
    assert_eq!(reader.remaining(), 0);
}

#[test]
fn settings_length_not_a_multiple_of_six_is_frame_size() {
    assert_eq!(read(&[0, 0, 5, 4, 0, 0, 0, 0, 0, 0, 1, 0, 0, 0]).unwrap_err(), ErrorKind::FrameSize);
    assert_eq!(
        SettingsFrame::from_raw(0, 0, &[0, 1, 0, 0, 0, 0, 0]).unwrap_err().kind(),
        ErrorKind::FrameSize
    );
}

#[test]
fn settings_on_a_stream_is_protocol_before_anything_else() {
    assert_eq!(read(&[0, 0, 5, 4, 1, 0, 0, 0, 1, 0, 1, 0, 0, 0]).unwrap_err(), ErrorKind::Protocol);
    assert_eq!(
        SettingsFrame::from_raw(1, 1, &[0, 1, 0]).unwrap_err().kind(),
        ErrorKind::Protocol
    );
}

#[test]
fn settings_values_at_their_limits() {
    let ok = |payload: &[u8]| SettingsFrame::from_raw(0, 0, payload).map(|f| f.settings());
    assert_eq!(ok(&[0, 2, 0, 0, 0, 0]).unwrap(), vec![Setting::EnablePush(false)]);
    assert_eq!(ok(&[0, 2, 0, 0, 0, 1]).unwrap(), vec![Setting::EnablePush(true)]);
    assert_eq!(ok(&[0, 2, 0, 0, 0, 2]).unwrap_err().kind(), ErrorKind::Protocol);
    assert_eq!(
        ok(&[0, 4, 0x7f, 0xff, 0xff, 0xff]).unwrap(),
        vec![Setting::InitialWindowSize(0x7fff_ffff)]
    );
    assert_eq!(ok(&[0, 4, 0x80, 0, 0, 0]).unwrap_err().kind(), ErrorKind::FlowControl);
    assert_eq!(ok(&[0, 5, 0, 0, 0x40, 0]).unwrap(), vec![Setting::MaxFrameSize(16384)]);
    assert_eq!(ok(&[0, 5, 0, 0, 0x3f, 0xff]).unwrap_err().kind(), ErrorKind::Protocol);
    assert_eq!(ok(&[0, 5, 0, 0xff, 0xff, 0xff]).unwrap(), vec![Setting::MaxFrameSize(16777215)]);
    assert_eq!(ok(&[0, 5, 1, 0, 0, 0]).unwrap_err().kind(), ErrorKind::Protocol);
    assert_eq!(
        ok(&[0, 1, 0xff, 0xff, 0xff, 0xff]).unwrap(),
        vec![Setting::HeaderTableSize(0xffff_ffff)]
    );
}

#[test]
fn unknown_settings_are_dropped_and_order_is_kept() {
    let payload = [
        0, 3, 0, 0, 0, 7, // max concurrent streams
        0, 9, 1, 2, 3, 4, // unknown
        0, 6, 0, 0, 1, 0, // max header list size
        0, 3, 0, 0, 0, 8, // max concurrent streams again
    ];
    let frame = SettingsFrame::from_raw(0, 0, &payload).unwrap();
    assert_eq!(
        frame.settings(),
        vec![
            Setting::MaxConcurrentStreams(7),
            Setting::MaxHeaderListSize(256),
            Setting::MaxConcurrentStreams(8),
        ]
    );
}

#[test]
fn first_refused_setting_decides_and_ends_the_reading() {
    let payload = [
        0, 1, 0, 0, 0, 1, // fine
        0, 4, 0xff, 0, 0, 0, // flow control
        0, 2, 0, 0, 0, 9, // protocol, never looked at
    ];
    let header = FrameHeader::from_parts(18, 4, Flags::empty(), StreamId::new(0)).unwrap();
    let mut reader = SliceReader::new(&payload);
    assert_eq!(
        SettingsFrame::read(header, &mut reader).unwrap_err().kind(),
        ErrorKind::FlowControl
    );
    assert_eq!(reader.remaining(), 6);
}

#[test]
fn one_setting_at_a_time() {
    let payload = [0, 5, 0, 1, 0, 0, 0, 0x77, 0, 0, 0, 0, 1, 2];
    let mut reader = SliceReader::new(&payload);
    let mut frame = SettingsFrame::default();
    frame.read_setting(&mut reader).unwrap();
    frame.read_setting(&mut reader).unwrap();
    assert_eq!(
        frame.read_setting(&mut reader).unwrap_err().kind(),
        ErrorKind::Internal
    );
    assert_eq!(reader.remaining(), 0);
    assert_eq!(frame.settings(), vec![Setting::MaxFrameSize(65536)]);
}

#[test]
fn settings_payload_as_bytes() {
    let mut frame = SettingsFrame::default();
    frame.add_setting(Setting::InitialWindowSize(-1));
    frame.add_setting(Setting::EnablePush(true));
    frame.add_setting(Setting::MaxHeaderListSize(0x01020304));
    assert_eq!(frame.payload_len(), 18);
    let header = frame.header();
    assert_eq!(header.payload_len(), 18);
    assert_eq!(header.frame_type(), 4);
    assert_eq!(header.flags().bits(), 0);
    assert_eq!(header.stream_id().value(), 0);
    let payload: Vec<u8> = frame.into();
    assert_eq!(
        payload,
        [0, 4, 0xff, 0xff, 0xff, 0xff, 0, 2, 0, 0, 0, 1, 0, 6, 1, 2, 3, 4]
    );
    assert_eq!(Setting::InitialWindowSize(-1).value(), 0xffff_ffff);
    assert_eq!(Setting::InitialWindowSize(i32::MIN).value(), 0x8000_0000);
    assert_eq!(Setting::MaxFrameSize(3).id(), 5);
}

#[test]
fn parse_payload_of_pairs() {
    assert_eq!(parse_payload(&[]).unwrap(), vec![]);
    assert_eq!(parse_payload(&[0, 1]).unwrap_err().kind(), ErrorKind::FrameSize);
    assert_eq!(
        parse_payload(&[0, 1, 0, 0, 0x10, 0, 0, 3, 0, 0, 0, 1]).unwrap(),
        vec![Setting::HeaderTableSize(4096), Setting::MaxConcurrentStreams(1)]
    );
    assert_eq!(parse_setting(0, 5).unwrap(), None);
    assert_eq!(parse_setting(7, 5).unwrap(), None);
    assert_eq!(parse_setting(6, 5).unwrap(), Some(Setting::MaxHeaderListSize(5)));
}

#[test]
fn priority_errors() {
    assert_eq!(read(&[0, 0, 5, 2, 0, 0, 0, 0, 0, 0, 0, 0, 1, 15]).unwrap_err(), ErrorKind::Protocol);
    assert_eq!(read(&[0, 0, 4, 2, 0, 0, 0, 0, 0, 0, 0, 0, 1]).unwrap_err(), ErrorKind::Protocol);
    assert_eq!(read(&[0, 0, 4, 2, 0, 0, 0, 0, 1, 0, 0, 0, 1]).unwrap_err(), ErrorKind::FrameSize);
    assert_eq!(read(&[0, 0, 0, 2, 0, 0, 0, 0, 1]).unwrap_err(), ErrorKind::FrameSize);
}

#[test]
fn priority_weight_range() {
    let least = [0, 0, 5, 2, 0, 0, 0, 0, 1, 0, 0, 0, 0, 0];
    let most = [0, 0, 5, 2, 0, 0, 0, 0, 1, 0xff, 0xff, 0xff, 0xff, 255];
    match read(&least).unwrap() {
        FrameKind::Priority(frame) => {
            assert_eq!(frame.weight(), 1);
            assert_eq!(written(frame), least);
        }
        _ => panic!("Wrong frame type"),
    }
    match read(&most).unwrap() {
        FrameKind::Priority(frame) => {
            assert_eq!(frame.weight(), 256);
            assert!(frame.is_exclusive());
            assert_eq!(frame.depends_on().value(), 0x7fff_ffff);
            assert_eq!(written(frame), most);
        }
        _ => panic!("Wrong frame type"),
    }
}

#[test]
fn headers_errors() {
    // stream zero
    assert_eq!(read(&[0, 0, 0, 1, 0, 0, 0, 0, 0]).unwrap_err(), ErrorKind::Protocol);
    // padded, but no room for the pad length
    assert_eq!(read(&[0, 0, 0, 1, FLAG_PADDED, 0, 0, 0, 1, 5]).unwrap_err(), ErrorKind::FrameSize);
    // priority, but no room for the record
    assert_eq!(
        read(&[0, 0, 4, 1, FLAG_PRIORITY, 0, 0, 0, 1, 0, 0, 0, 0]).unwrap_err(),
        ErrorKind::FrameSize
    );
    assert_eq!(
        read(&[0, 0, 5, 1, FLAG_PRIORITY | FLAG_PADDED, 0, 0, 0, 1, 0, 0, 0, 0, 0]).unwrap_err(),
        ErrorKind::FrameSize
    );
    // more padding than payload
    assert_eq!(
        read(&[0, 0, 3, 1, FLAG_PADDED, 0, 0, 0, 1, 3, 0, 0]).unwrap_err(),
        ErrorKind::Protocol
    );
    // padding that fills the payload exactly
    match read(&[0, 0, 3, 1, FLAG_PADDED | FLAG_END_HEADERS, 0, 0, 0, 1, 2, 0, 0]).unwrap() {
        FrameKind::Headers(frame) => {
            assert_eq!(frame.header_block_fragment(), []);
            assert!(frame.is_end_headers());
        }
        _ => panic!("Wrong frame type"),
    }
    // padded, nothing behind the header
    assert_eq!(read(&[0, 0, 3, 1, FLAG_PADDED, 0, 0, 0, 1]).unwrap_err(), ErrorKind::Internal);
}

#[test]
fn types_without_a_decoder_are_kept_as_they_are() {
    for frame_type in [0u8, 3, 5, 6, 7, 8, 9, 10, 0x80, 0xff] {
        for flags in [0u8, 1, 0x2d, 0xd2, 0xff] {
            let frame = UnknownFrame::new(
                StreamId::new(0x7fff_ffff),
                Flags::from_bits(flags),
                frame_type,
                vec![frame_type, flags, 0],
            );
            let bytes = written(frame.clone());
            assert_eq!(bytes[3], frame_type);
            assert_eq!(bytes[4], flags);
            match read(&bytes).unwrap() {
                FrameKind::Unknown(res) => {
                    assert_eq!(res, frame);
                    assert_eq!(res.flags().bits(), flags);
                    assert_eq!(res.frame_type(), frame_type);
                    assert_eq!(res.stream_id().value(), 0x7fff_ffff);
                    assert_eq!(res.payload(), [frame_type, flags, 0]);
                }
                _ => panic!("wrong frame"),
            }
        }
    }
}

#[test]
fn iterator_stops_in_front_of_an_unfinished_frame() {
    let mut stream = Vec::new();
    stream.write_frame(SettingsFrame::ack()).unwrap();
    stream.write_frame(HeadersFrame::new(StreamId::new(1)).fragment(vec![1, 2, 3])).unwrap();
    stream.write_frame(PriorityFrame::new(StreamId::new(3))).unwrap();
    let whole = stream.len();
    assert_eq!(whole, 9 + 12 + 14);
    for cut in 0..=whole {
        let mut iter = FrameIter::new(&stream[..cut], 100);
        let mut yielded = 0;
        while let Some(item) = iter.next() {
            assert!(item.is_ok());
            yielded += 1;
        }
        let (frames, end) = if cut < 9 {
            (0, 0)
        } else if cut < 21 {
            (1, 9)
        } else if cut < 35 {
            (2, 21)
        } else {
            (3, 35)
        };
        assert_eq!(yielded, frames);
        assert_eq!(iter.position(), end);
        assert_eq!(iter.len(), cut - end);
        assert!(iter.next().is_none());
    }
}

#[test]
fn iterator_with_three_octets_left() {
    let mut iter = FrameIter::new(&[0, 0, 1], 100);
    assert!(iter.next().is_none());
    assert_eq!(iter.position(), 0);
}

#[test]
fn iterator_refuses_without_moving_and_skips_what_it_cannot_decode() {
    let stream = [
        0, 0, 0, 2, 0, 0, 0, 0, 1, // priority without payload
        0, 0, 1, 0x55, 0, 0, 0, 0, 1, 9, // unknown
        0, 0, 200, 1, 0, 0, 0, 0, 1, // too long
    ];
    let mut iter = FrameIter::new(&stream, 100);
    assert_eq!(iter.next().unwrap().unwrap_err().kind(), ErrorKind::FrameSize);
    assert_eq!(iter.position(), 9);
    assert!(iter.next().unwrap().is_ok());
    assert_eq!(iter.position(), 19);
    assert_eq!(iter.next().unwrap().unwrap_err().kind(), ErrorKind::FrameSize);
    assert_eq!(iter.position(), 19);
    assert_eq!(iter.next().unwrap().unwrap_err().kind(), ErrorKind::FrameSize);
    assert_eq!(iter.position(), 19);
}

#[test]
fn flags_as_a_set_of_bits() {
    let mut flags = Flags::empty();
    assert_eq!(flags.bits(), 0);
    assert!(!flags.contains(FLAG_ACK));
    flags.insert(FLAG_END_HEADERS);
    flags.insert(FLAG_PRIORITY);
    assert_eq!(flags.bits(), 0x24);
    assert!(flags.contains(FLAG_END_HEADERS));
    assert!(flags.contains(FLAG_PRIORITY));
    assert!(flags.contains(FLAG_END_HEADERS | FLAG_PRIORITY));
    assert!(!flags.contains(FLAG_PADDED));
    assert!(!flags.contains(FLAG_PADDED | FLAG_PRIORITY));
}
