use dualsense_input::controller::{
    select_device, DeviceSummary, PollStep, ReadOutcome, ReportDecoder, DUALSENSE_PID, SONY_VID,
};
use dualsense_input::types::{bit_to_button, buttons_from_bytes, pack_buttons};
use dualsense_input::{Button, Config, DPad, Event, StickSide, TouchPoint, TriggerSide};

/// A report data block at rest: sticks centered, touch slots lifted and
/// out of range, hat released.
fn rest_report() -> Vec<u8> {
    let mut r = vec![0u8; 63];
    r[0] = 128;
    r[1] = 128;
    r[2] = 128;
    r[3] = 128;
    r[7] = 0x08;
    for base in [32usize, 36] {
        r[base] = 0x80;
        r[base + 1] = 0xFF;
        r[base + 2] = 0xFF;
        r[base + 3] = 0xFF;
    }
    r
}

/// A decoder that has already seen the rest report.
fn settled(config: Config) -> ReportDecoder {
    let mut d = ReportDecoder::new(config);
    d.process_report(&rest_report());
    d
}

fn put_i16(r: &mut [u8], off: usize, v: i16) {
    let b = v.to_le_bytes();
    r[off] = b[0];
    r[off + 1] = b[1];
}

#[test]
fn pack_buttons_places_bytes() {
    assert_eq!(pack_buttons(0x10, 0x01, 0x04), 0x0004_0110);
    assert_eq!(pack_buttons(0xFF, 0xFF, 0xFF), 0x00FF_FFFF);
    assert_eq!(pack_buttons(0, 0, 0), 0);
}

#[test]
fn bit_to_button_maps_single_bits() {
    assert_eq!(bit_to_button(1 << 4), Some(Button::Square));
    assert_eq!(bit_to_button(1 << 5), Some(Button::Cross));
    assert_eq!(bit_to_button(1 << 8), Some(Button::L1));
    assert_eq!(bit_to_button(1 << 18), Some(Button::Mute));
    assert_eq!(bit_to_button(1 << 3), None);
    assert_eq!(bit_to_button(1 << 19), None);
    assert_eq!(bit_to_button(0x30), None);
    assert_eq!(bit_to_button(0), None);
}

#[test]
fn buttons_from_bytes_lists_held_buttons_in_bit_order() {
    assert_eq!(buttons_from_bytes(0x28, 0x00, 0x02), vec![Button::Cross, Button::Touchpad]);
    assert_eq!(buttons_from_bytes(0x0F, 0x00, 0x00), Vec::<Button>::new());
    let all = buttons_from_bytes(0xFF, 0xFF, 0xFF);
    assert_eq!(
        all,
        vec![
            Button::Square,
            Button::Cross,
            Button::Circle,
            Button::Triangle,
            Button::L1,
            Button::R1,
            Button::L2Digital,
            Button::R2Digital,
            Button::Create,
            Button::Options,
            Button::L3,
            Button::R3,
            Button::PS,
            Button::Touchpad,
            Button::Mute,
        ]
    );
}

#[test]
fn dpad_from_nibble_uses_low_nibble() {
    assert_eq!(DPad::from_nibble(0), DPad::Up);
    assert_eq!(DPad::from_nibble(0x23), DPad::DownRight);
    assert_eq!(DPad::from_nibble(0xF7), DPad::UpLeft);
    assert_eq!(DPad::from_nibble(0x08), DPad::Released);
    assert_eq!(DPad::from_nibble(0x0F), DPad::Released);
}

#[test]
fn dpad_names() {
    assert_eq!(DPad::Released.to_string(), "Released");
    assert_eq!(DPad::UpRight.to_string(), "UpRight");
    assert_eq!(DPad::Left.to_string(), "Left");
}

#[test]
fn config_excludes_buttons() {
    let cfg = Config::builder().exclude_buttons(&[Button::Mute, Button::PS]).build();
    assert!(!cfg.accepts_button(&Button::Mute));
    assert!(!cfg.accepts_button(&Button::PS));
    assert!(cfg.accepts_button(&Button::Cross));
    let cfg = Config::builder().exclude_button(Button::DPadUp).build();
    assert!(!cfg.accepts_button(&Button::DPadUp));
    assert!(cfg.accepts_button(&Button::DPadDown));
    let cfg = Config::default();
    assert!(cfg.accepts_button(&Button::Mute));
}

#[test]
fn first_report_reports_sticks_hat_and_touch() {
    let mut d = ReportDecoder::new(Config::default());
    let mut r = rest_report();
    r[32] = 0x05;
    r[33] = 0x34;
    r[34] = 0x12;
    r[35] = 0x05;
    let ev = d.process_report(&r);
    assert_eq!(
        ev,
        vec![
            Event::DPadChanged(DPad::Released),
            Event::StickMove { which: StickSide::Left, x: 128, y: 128 },
            Event::StickMove { which: StickSide::Right, x: 128, y: 128 },
            Event::TouchDown(TouchPoint { finger: 0, x: 0x234, y: 0x051, contact_id: 5 }),
        ]
    );
}

#[test]
fn same_report_twice_is_quiet() {
    let mut d = settled(Config::default());
    let mut r = rest_report();
    r[8] = 0x01;
    r[4] = 200;
    put_i16(&mut r, 21, 3000);
    r[32] = 0x07;
    r[33] = 10;
    r[34] = 0;
    r[35] = 1;
    let first = d.process_report(&r);
    assert!(!first.is_empty());
    let second = d.process_report(&r);
    assert_eq!(
        second,
        vec![Event::TouchMove(TouchPoint { finger: 0, x: 10, y: 16, contact_id: 7 })]
    );
}

#[test]
fn button_press_and_release() {
    let mut d = settled(Config::default());
    let mut r = rest_report();
    r[7] = 0x08 | 0x20;
    r[9] = 0x04;
    let ev = d.process_report(&r);
    assert_eq!(ev, vec![Event::ButtonPress(Button::Cross), Event::ButtonPress(Button::Mute)]);
    r[7] = 0x08;
    let ev = d.process_report(&r);
    assert_eq!(ev, vec![Event::ButtonRelease(Button::Cross)]);
}

#[test]
fn excluded_button_gives_no_event() {
    let mut d = settled(Config::builder().exclude_button(Button::Cross).build());
    let mut r = rest_report();
    r[7] = 0x08 | 0x20 | 0x40;
    let ev = d.process_report(&r);
    assert_eq!(ev, vec![Event::ButtonPress(Button::Circle)]);
}

#[test]
fn dpad_change_and_exclusion() {
    let mut d = settled(Config::default());
    let mut r = rest_report();
    r[7] = 0x02;
    assert_eq!(d.process_report(&r), vec![Event::DPadChanged(DPad::Right)]);
    let mut d = settled(Config::builder().exclude_button(Button::DPadUp).build());
    assert_eq!(d.process_report(&r), Vec::<Event>::new());
}

#[test]
fn trigger_threshold_is_exceeded_not_reached() {
    let mut d = settled(Config::builder().trigger_threshold(10).build());
    let mut r = rest_report();
    r[4] = 10;
    assert_eq!(d.process_report(&r), Vec::<Event>::new());
    r[4] = 11;
    assert_eq!(
        d.process_report(&r),
        vec![Event::Trigger { which: TriggerSide::Left, value: 11 }]
    );
    let mut d = settled(Config::builder().exclude_trigger(TriggerSide::Right).build());
    r[4] = 0;
    r[5] = 255;
    assert_eq!(d.process_report(&r), Vec::<Event>::new());
}

#[test]
fn stick_deadzone_and_threshold() {
    let mut d = settled(Config::builder().stick_deadzone(40).stick_threshold(5).build());
    let mut r = rest_report();
    // inside the dead-zone: no event
    r[0] = 160;
    assert_eq!(d.process_report(&r), Vec::<Event>::new());
    // out of the dead-zone
    r[0] = 200;
    assert_eq!(
        d.process_report(&r),
        vec![Event::StickMove { which: StickSide::Left, x: 200, y: 128 }]
    );
    // small change: below threshold
    r[0] = 205;
    assert_eq!(d.process_report(&r), Vec::<Event>::new());
    r[0] = 206;
    assert_eq!(
        d.process_report(&r),
        vec![Event::StickMove { which: StickSide::Left, x: 206, y: 128 }]
    );
}

#[test]
fn stick_deadzone_is_clamped_to_127() {
    // with a dead-zone of 255 every value would be at rest; clamped to 127,
    // 0 lies outside it.
    let mut d = settled(Config::builder().stick_deadzone(255).build());
    let mut r = rest_report();
    r[2] = 0;
    assert_eq!(
        d.process_report(&r),
        vec![Event::StickMove { which: StickSide::Right, x: 0, y: 128 }]
    );
}

#[test]
fn excluded_stick_gives_no_event() {
    let mut d = settled(Config::builder().exclude_stick(StickSide::Left).build());
    let mut r = rest_report();
    r[0] = 0;
    r[1] = 0;
    assert_eq!(d.process_report(&r), Vec::<Event>::new());
}

#[test]
fn touch_lifecycle() {
    let mut d = settled(Config::default());
    let mut r = rest_report();
    r[36] = 0x03;
    r[37] = 100;
    r[38] = 0x20;
    r[39] = 0x03;
    let tp = TouchPoint { finger: 1, x: 100, y: 0x32, contact_id: 3 };
    assert_eq!(d.process_report(&r), vec![Event::TouchDown(tp)]);
    r[37] = 101;
    let tp2 = TouchPoint { finger: 1, x: 101, y: 0x32, contact_id: 3 };
    assert_eq!(d.process_report(&r), vec![Event::TouchMove(tp2)]);
    r[36] = 0x04;
    let tp3 = TouchPoint { finger: 1, x: 101, y: 0x32, contact_id: 4 };
    assert_eq!(
        d.process_report(&r),
        vec![Event::TouchUp { finger: 1 }, Event::TouchDown(tp3)]
    );
    r[36] = 0x84;
    assert_eq!(d.process_report(&r), vec![Event::TouchUp { finger: 1 }]);
}

#[test]
fn touch_reporting_off() {
    let mut d = settled(Config::builder().report_touch(false).build());
    let mut r = rest_report();
    r[32] = 0x01;
    r[33] = 1;
    r[34] = 1;
    r[35] = 1;
    assert_eq!(d.process_report(&r), Vec::<Event>::new());
}

#[test]
fn accelerometer_threshold() {
    let mut d = settled(Config::builder().accel_threshold(100).build());
    let mut r = rest_report();
    put_i16(&mut r, 21, 100);
    assert_eq!(d.process_report(&r), Vec::<Event>::new());
    put_i16(&mut r, 25, -1);
    put_i16(&mut r, 23, -200);
    assert_eq!(d.process_report(&r), vec![Event::Accelerometer { x: 100, y: -200, z: -1 }]);
    let mut d = settled(Config::builder().report_accel(false).build());
    assert_eq!(d.process_report(&r), Vec::<Event>::new());
}

#[test]
fn gyroscope_first_reading_is_silent() {
    let mut d = ReportDecoder::new(Config::builder().report_touch(false).build());
    let mut r = rest_report();
    put_i16(&mut r, 15, 30000);
    let ev = d.process_report(&r);
    assert!(ev.iter().all(|e| !matches!(e, Event::Gyroscope { .. })));
    put_i16(&mut r, 17, i16::MIN);
    let ev = d.process_report(&r);
    assert_eq!(ev, vec![Event::Gyroscope { pitch: 30000, yaw: i16::MIN, roll: 0 }]);
    let mut d = settled(Config::builder().report_gyro(false).build());
    put_i16(&mut r, 19, 12345);
    assert_eq!(d.process_report(&r), Vec::<Event>::new());
}

#[test]
fn extract_report_formats() {
    let mut buf = [0u8; 128];
    for (i, b) in buf.iter_mut().enumerate() {
        *b = i as u8;
    }
    assert_eq!(ReportDecoder::extract_report(&buf, 63).unwrap(), &buf[..63]);
    assert_eq!(ReportDecoder::extract_report(&buf, 64).unwrap(), &buf[..64]);
    assert_eq!(ReportDecoder::extract_report(&buf, 77).unwrap(), &buf[2..]);
    assert_eq!(ReportDecoder::extract_report(&buf, 78).unwrap(), &buf[2..]);
    buf[0] = 0x01;
    assert_eq!(ReportDecoder::extract_report(&buf, 64).unwrap(), &buf[1..64]);
    assert_eq!(ReportDecoder::extract_report(&buf, 78).unwrap(), &buf[3..]);
    assert!(ReportDecoder::extract_report(&buf, 62).is_none());
    assert!(ReportDecoder::extract_report(&buf, 0).is_none());
    assert!(ReportDecoder::extract_report(&buf, 128).is_none());
}

#[test]
fn process_read_strips_report_id() {
    let mut d = settled(Config::default());
    let mut buf = [0u8; 128];
    buf[0] = 0x01;
    buf[1..64].copy_from_slice(&rest_report());
    buf[1 + 7] = 0x08 | 0x10;
    assert_eq!(d.process_read(&buf, 64), vec![Event::ButtonPress(Button::Square)]);
    // unknown sizes are ignored
    buf[1 + 7] = 0x08;
    assert_eq!(d.process_read(&buf, 50), Vec::<Event>::new());
    assert_eq!(d.process_read(&buf, 1), Vec::<Event>::new());
}

#[test]
fn poll_steps() {
    let mut d = settled(Config::default());
    let mut buf = [0u8; 128];
    buf[..63].copy_from_slice(&rest_report());
    buf[8] = 0x02;
    match d.poll_step(ReadOutcome::Bytes(63), &buf) {
        PollStep::Continue(evs) => assert_eq!(evs, vec![Event::ButtonPress(Button::R1)]),
        other => panic!("unexpected {other:?}"),
    }
    assert!(matches!(d.poll_step(ReadOutcome::Bytes(0), &buf), PollStep::Stop));
    assert!(matches!(d.poll_step(ReadOutcome::Bytes(1), &buf), PollStep::Stop));
    assert!(matches!(d.poll_step(ReadOutcome::ApiError, &buf), PollStep::Stop));
    assert!(matches!(d.poll_step(ReadOutcome::OtherError, &buf), PollStep::Fail));
}

fn dev(vid: u16, pid: u16, page: u16, usage: u16) -> DeviceSummary {
    DeviceSummary { vendor_id: vid, product_id: pid, usage_page: page, usage }
}

#[test]
fn select_device_prefers_gamepad_interface() {
    let list = vec![
        dev(0x1234, 0x5678, 1, 5),
        dev(SONY_VID, DUALSENSE_PID, 0xFF00, 1),
        dev(SONY_VID, DUALSENSE_PID, 1, 5),
        dev(SONY_VID, DUALSENSE_PID, 1, 5),
        dev(SONY_VID, DUALSENSE_PID, 0x0C, 1),
    ];
    assert_eq!(select_device(&list), Some(2));
    let list = vec![
        dev(SONY_VID, DUALSENSE_PID, 0xFF00, 1),
        dev(SONY_VID, 0x0001, 1, 5),
        dev(SONY_VID, DUALSENSE_PID, 0x0C, 1),
        dev(0x1234, DUALSENSE_PID, 1, 5),
    ];
    assert_eq!(select_device(&list), Some(0));
    assert_eq!(select_device(&[dev(0x1234, 0x5678, 1, 5)]), None);
    assert_eq!(select_device(&[]), None);
}

#[test]
fn packed_word_gives_back_its_bytes() {
    let w = pack_buttons(0xA5, 0x3C, 0x81);
    assert_eq!(w & 0xFF, 0xA5);
    assert_eq!((w >> 8) & 0xFF, 0x3C);
    assert_eq!(w >> 16, 0x81);
}

#[test]
fn bit_table_roundtrip() {
    for (bit, b) in [(4u32, Button::Square), (7, Button::Triangle), (12, Button::Create), (17, Button::Touchpad)] {
        assert_eq!(bit_to_button(1 << bit), Some(b));
        assert_eq!(buttons_from_bytes(
            (pack_buttons(0, 0, 0) | (1 << bit)) as u8,
            ((1u32 << bit) >> 8) as u8,
            ((1u32 << bit) >> 16) as u8,
        ), vec![b]);
    }
}

const ALL_BUTTONS: [Button; 19] = [
    Button::Cross,
    Button::Circle,
    Button::Square,
    Button::Triangle,
    Button::DPadUp,
    Button::DPadDown,
    Button::DPadLeft,
    Button::DPadRight,
    Button::L1,
    Button::R1,
    Button::L2Digital,
    Button::R2Digital,
    Button::L3,
    Button::R3,
    Button::Create,
    Button::Options,
    Button::PS,
    Button::Touchpad,
    Button::Mute,
];

#[test]
fn exclude_buttons_is_exclude_button_one_by_one() {
    let at_once = Config::builder()
        .exclude_buttons(&[Button::PS, Button::L1, Button::PS, Button::DPadLeft])
        .build();
    let reordered = Config::builder()
        .exclude_buttons(&[Button::DPadLeft, Button::L1, Button::PS])
        .exclude_buttons(&[Button::DPadLeft, Button::L1, Button::PS])
        .build();
    let chained = Config::builder()
        .exclude_button(Button::PS)
        .exclude_button(Button::L1)
        .exclude_button(Button::DPadLeft)
        .build();
    let none = Config::builder().exclude_buttons(&[]).build();
    for b in ALL_BUTTONS {
        assert_eq!(at_once.accepts_button(&b), chained.accepts_button(&b));
        assert_eq!(reordered.accepts_button(&b), chained.accepts_button(&b));
        assert!(none.accepts_button(&b));
    }
    assert!(!chained.accepts_button(&Button::L1));
}

#[test]
fn held_buttons_match_bit_by_bit_decoding() {
    for (b0, b1, b2) in [(0xFFu8, 0xFFu8, 0xFFu8), (0x5A, 0xA5, 0x03), (0x0F, 0, 0xF8), (0x90, 0x41, 0x05)] {
        let word = pack_buttons(b0, b1, b2);
        let by_bits: Vec<Button> = (0..24u32)
            .filter(|k| word & (1u32 << k) != 0)
            .filter_map(|k| bit_to_button(1u32 << k))
            .collect();
        assert_eq!(buttons_from_bytes(b0, b1, b2), by_bits);
    }
}
