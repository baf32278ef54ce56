use deuter::error::ErrorKind;
use deuter::frame::settings::{Setting, SettingsFrame, TYPE_SETTINGS};
use deuter::frame::{Flags, FrameHeader, FrameKind, ReadFrame, WriteFrame};
use deuter::io::SliceReader;
use deuter::StreamId;

fn single_setting_frame_header() -> FrameHeader {
    FrameHeader::from_parts(6, TYPE_SETTINGS, Flags::empty(), StreamId::new(0)).unwrap()
}

#[test]
fn settings_test_empty_settings_frame() {
    let frame = SettingsFrame::default();
    let mut b = Vec::new();
    b.write_frame(frame.clone()).unwrap();
    assert_eq!(b, [0, 0, 0, 4, 0, 0, 0, 0, 0]);
    let mut sl = SliceReader::new(&b[..]);
    let res = match sl.read_frame_checked(100).unwrap() {
        FrameKind::Settings(frame) => frame,
        _ => panic!("Wrong frame type")
    };
    assert_eq!(frame, res);
}

#[test]
fn settings_test_ack_settings_frame() {
    let frame = SettingsFrame::ack();
    let mut b = Vec::new();
    b.write_frame(frame.clone()).unwrap();
    assert_eq!(b, [0, 0, 0, 4, 1, 0, 0, 0, 0]);
    let mut sl = SliceReader::new(&b[..]);
    if let FrameKind::Settings(res) = sl.read_frame_checked(100).unwrap() {
        assert_eq!(frame, res);
        assert!(res.is_ack());
    } else {
        panic!("Wrong frame type")
    }
}

#[test]
fn settings_test_full_settings_frame() {
    let mut frame = SettingsFrame::default();
    frame.add_setting(Setting::HeaderTableSize(100));
    frame.add_setting(Setting::EnablePush(false));
    frame.add_setting(Setting::MaxConcurrentStreams(100));
    frame.add_setting(Setting::InitialWindowSize(100));
    frame.add_setting(Setting::MaxFrameSize(100000));
    frame.add_setting(Setting::MaxHeaderListSize(100));
    let mut b = Vec::new();
    b.write_frame(frame.clone()).unwrap();
    let mut sl = SliceReader::new(&b[..]);
    let res = match sl.read_frame_checked(1000).unwrap() {
        FrameKind::Settings(frame) => frame,
        _ => panic!("Wrong frame type")
    };
    assert_eq!(frame, res);
}

#[test]
fn settings_test_ack_and_payload_error() {
    let mut frame = SettingsFrame::ack();
    frame.add_setting(Setting::EnablePush(true));
    let mut b = Vec::new();
    b.write_frame(frame).unwrap();
    assert_eq!(b, [0, 0, 6, 4, 1, 0, 0, 0, 0, 0, 2, 0, 0, 0, 1]);
    let mut sl = SliceReader::new(&b[..]);
    assert_eq!(sl.read_frame_checked(1000).unwrap_err().kind(), ErrorKind::FrameSize);
}

#[test]
fn settings_test_wrong_stream_id_error() {
    let bytes = vec![0, 0, 0, 4, 0, 0, 0, 0, 100];
    let mut b = SliceReader::new(&bytes[..]);
    assert_eq!(b.read_frame_checked(1000).unwrap_err().kind(), ErrorKind::Protocol);
}

#[test]
fn settings_test_invalid_enable_push_frame_error() {
    // enable_push value > 1
    let bytes = [0, 2, 0, 0, 0, 100];
    let mut payload = SliceReader::new(&bytes);
    assert_eq!(SettingsFrame::read(single_setting_frame_header(), &mut payload).unwrap_err().kind(), ErrorKind::Protocol);
}

#[test]
fn settings_test_invalid_initial_window_size() {
    let bytes = [0, 4, 129, 255, 255, 255];
    let mut payload = SliceReader::new(&bytes);
    assert_eq!(SettingsFrame::read(single_setting_frame_header(), &mut payload).unwrap_err().kind(), ErrorKind::FlowControl);
}

#[test]
fn settings_test_invalid_max_frame_size() {
    let mut bytes = [0, 5, 0, 0, 0, 10];
    let mut payload = SliceReader::new(&bytes);
    assert_eq!(SettingsFrame::read(single_setting_frame_header(), &mut payload).unwrap_err().kind(), ErrorKind::Protocol);
    bytes = [0, 5, 255, 255, 255, 255];
    let mut payload = SliceReader::new(&bytes);
    assert_eq!(SettingsFrame::read(single_setting_frame_header(), &mut payload).unwrap_err().kind(), ErrorKind::Protocol);
}
