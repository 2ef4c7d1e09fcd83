use vstd::prelude::*;
use vstd::slice::slice_subrange;

use crate::config::{Config, ConfigView};
use crate::event::{Event, TouchPoint};
use crate::types::{packed_bits, bit_to_button, is_held, lemma_bit_decoding_inverts_bit_table, packed_bit, button_for_bit, dpad_of_hat, pack_buttons, packed_word, Button, DPad, StickSide, TriggerSide};

verus! {

// ── HID identifiers ───────────────────────────────────────────────
/// Sony's USB vendor id.
pub const SONY_VID: u16 = 0x054C;

/// The DualSense product id.
pub const DUALSENSE_PID: u16 = 0x0CE6;

// ── report byte offsets (after removing Report ID / BT header) ────
pub const O_LX: usize = 0;
pub const O_LY: usize = 1;
pub const O_RX: usize = 2;
pub const O_RY: usize = 3;
pub const O_L2: usize = 4;
pub const O_R2: usize = 5;
pub const O_BTN0: usize = 7;
pub const O_BTN1: usize = 8;
pub const O_BTN2: usize = 9;
pub const O_GYRO_PITCH: usize = 15;
pub const O_GYRO_YAW: usize = 17;
pub const O_GYRO_ROLL: usize = 19;
pub const O_ACCEL_X: usize = 21;
pub const O_ACCEL_Y: usize = 23;
pub const O_ACCEL_Z: usize = 25;
pub const O_TOUCH0: usize = 32;
pub const O_TOUCH1: usize = 36;

/// Reports shorter than this are ignored.
pub const DATA_MIN_LEN: usize = 40;

pub const TOUCHPAD_MAX_X: u16 = 1920;
pub const TOUCHPAD_MAX_Y: u16 = 1088;

// ── previous-state tracker ────────────────────────────────────────

/// What the decoder remembers of the reports it has seen: the values that
/// the last emitted events (or the last report, for buttons and touches)
/// carried.
#[derive(Debug, Clone, Copy, PartialEq, Eq)]
pub struct PrevState {
    pub buttons: u32,
    pub dpad: u8,
    pub lx: u8,
    pub ly: u8,
    pub rx: u8,
    pub ry: u8,
    pub l2: u8,
    pub r2: u8,
    pub gyro_pitch: i16,
    pub gyro_yaw: i16,
    pub gyro_roll: i16,
    pub accel_x: i16,
    pub accel_y: i16,
    pub accel_z: i16,
    pub gyro_init: bool,
    pub accel_init: bool,
    pub touch0_active: bool,
    pub touch0_id: u8,
    pub touch1_active: bool,
    pub touch1_id: u8,
}

/// The state before any report: everything zero, nothing active.
pub open spec fn initial_prev() -> PrevState {
    PrevState {
        buttons: 0,
        dpad: 0,
        lx: 0,
        ly: 0,
        rx: 0,
        ry: 0,
        l2: 0,
        r2: 0,
        gyro_pitch: 0,
        gyro_yaw: 0,
        gyro_roll: 0,
        accel_x: 0,
        accel_y: 0,
        accel_z: 0,
        gyro_init: false,
        accel_init: false,
        touch0_active: false,
        touch0_id: 0,
        touch1_active: false,
        touch1_id: 0,
    }
}

// ── specification of report decoding ──────────────────────────────

pub open spec fn abs_diff(a: int, b: int) -> int {
    if a >= b {
        a - b
    } else {
        b - a
    }
}

/// A little-endian signed 16-bit value.
pub open spec fn i16_le(lo: u8, hi: u8) -> i16 {
    let u = lo + 256 * hi;
    if u >= 32768 {
        (u - 65536) as i16
    } else {
        u as i16
    }
}

/// The button event that bit `bit` gives when the packed word goes from
/// `old` to `new`.
pub open spec fn button_change(new: u32, old: u32, excluded: Set<Button>, bit: u32) -> Option<
    Event,
> {
    if (new ^ old) & bit != 0 {
        match button_for_bit(bit) {
            Some(b) => if excluded.contains(b) {
                None
            } else if new & bit != 0 {
                Some(Event::ButtonPress(b))
            } else {
                Some(Event::ButtonRelease(b))
            },
            None => None,
        }
    } else {
        None
    }
}

/// The button events of a change of the packed word, lowest bit first.
pub open spec fn button_events(new: u32, old: u32, excluded: Set<Button>) -> Seq<Event> {
    packed_bits().filter_map(|bit: u32| button_change(new, old, excluded, bit))
}

pub open spec fn buttons_step(cfg: ConfigView, r: Seq<u8>, ev: Seq<Event>, p: PrevState) -> (
    Seq<Event>,
    PrevState,
) {
    let new = packed_word(r[7], r[8], r[9]);
    if new != p.buttons {
        (ev + button_events(new, p.buttons, cfg.excluded_buttons), PrevState { buttons: new, ..p })
    } else {
        (ev, p)
    }
}

pub open spec fn dpad_step(cfg: ConfigView, r: Seq<u8>, ev: Seq<Event>, p: PrevState) -> (
    Seq<Event>,
    PrevState,
) {
    let hat = (r[7] % 16) as u8;
    if hat != p.dpad && !cfg.excluded_buttons.contains(Button::DPadUp) {
        (ev.push(Event::DPadChanged(dpad_of_hat(hat))), PrevState { dpad: hat, ..p })
    } else {
        (ev, p)
    }
}

pub open spec fn trigger_step(
    cfg: ConfigView,
    which: TriggerSide,
    value: u8,
    ev: Seq<Event>,
    p: PrevState,
) -> (Seq<Event>, PrevState) {
    let old = match which {
        TriggerSide::Left => p.l2,
        TriggerSide::Right => p.r2,
    };
    if !cfg.excluded_triggers.contains(which) && abs_diff(value as int, old as int)
        > cfg.trigger_threshold {
        (
            ev.push(Event::Trigger { which, value }),
            match which {
                TriggerSide::Left => PrevState { l2: value, ..p },
                TriggerSide::Right => PrevState { r2: value, ..p },
            },
        )
    } else {
        (ev, p)
    }
}

/// Whether a stick value lies within the dead-zone around the center 128.
pub open spec fn in_deadzone(cfg: ConfigView, v: u8) -> bool {
    abs_diff(v as int, 128) <= cfg.stick_deadzone
}

/// Whether a stick move from `(px, py)` to `(x, y)` is reported: the stick
/// is not excluded, one axis moved by more than the threshold, and not all
/// four values lie in the dead-zone.
pub open spec fn stick_moves(cfg: ConfigView, which: StickSide, x: u8, y: u8, px: u8, py: u8) -> bool {
    &&& !cfg.excluded_sticks.contains(which)
    &&& (abs_diff(x as int, px as int) > cfg.stick_threshold || abs_diff(y as int, py as int)
        > cfg.stick_threshold)
    &&& !(in_deadzone(cfg, x) && in_deadzone(cfg, y) && in_deadzone(cfg, px) && in_deadzone(
        cfg,
        py,
    ))
}

pub open spec fn stick_step(
    cfg: ConfigView,
    which: StickSide,
    x: u8,
    y: u8,
    ev: Seq<Event>,
    p: PrevState,
) -> (Seq<Event>, PrevState) {
    let (px, py) = match which {
        StickSide::Left => (p.lx, p.ly),
        StickSide::Right => (p.rx, p.ry),
    };
    if stick_moves(cfg, which, x, y, px, py) {
        (
            ev.push(Event::StickMove { which, x, y }),
            match which {
                StickSide::Left => PrevState { lx: x, ly: y, ..p },
                StickSide::Right => PrevState { rx: x, ry: y, ..p },
            },
        )
    } else {
        (ev, p)
    }
}

/// The contact in the 4-byte touch record of finger `finger`: bit 7 of the
/// first byte is set when lifted, its low 7 bits are the contact id; X and Y
/// are 12-bit values.
pub open spec fn touch_point_at(r: Seq<u8>, finger: u8) -> TouchPoint {
    let base = 32 + 4 * finger;
    TouchPoint {
        finger,
        x: (r[base + 1] + 256 * (r[base + 2] % 16)) as u16,
        y: (r[base + 2] / 16 + 16 * r[base + 3]) as u16,
        contact_id: (r[base] % 128) as u8,
    }
}

pub open spec fn touch_active_at(r: Seq<u8>, finger: u8) -> bool {
    r[32 + 4 * finger] < 128
}

/// Out-of-range coordinates are idle noise.
pub open spec fn in_touch_range(tp: TouchPoint) -> bool {
    tp.x < 1920 && tp.y < 1088
}

/// The events of one finger slot, given whether it was active and its
/// previous contact id.
pub open spec fn touch_transition(was_active: bool, prev_id: u8, active: bool, tp: TouchPoint) -> Seq<
    Event,
> {
    let was = was_active && in_touch_range(tp);
    let now = active && in_touch_range(tp);
    if !was && now {
        seq![Event::TouchDown(tp)]
    } else if was && now && tp.contact_id == prev_id {
        seq![Event::TouchMove(tp)]
    } else if was && now {
        seq![Event::TouchUp { finger: tp.finger }, Event::TouchDown(tp)]
    } else if was && !now {
        seq![Event::TouchUp { finger: tp.finger }]
    } else {
        seq![]
    }
}

pub open spec fn touch_slot_step(r: Seq<u8>, finger: u8, ev: Seq<Event>, p: PrevState) -> (
    Seq<Event>,
    PrevState,
) {
    let tp = touch_point_at(r, finger);
    let active = touch_active_at(r, finger);
    let now = active && in_touch_range(tp);
    if finger == 0 {
        (
            ev + touch_transition(p.touch0_active, p.touch0_id, active, tp),
            PrevState { touch0_active: now, touch0_id: tp.contact_id, ..p },
        )
    } else {
        (
            ev + touch_transition(p.touch1_active, p.touch1_id, active, tp),
            PrevState { touch1_active: now, touch1_id: tp.contact_id, ..p },
        )
    }
}

pub open spec fn touch_step(cfg: ConfigView, r: Seq<u8>, ev: Seq<Event>, p: PrevState) -> (
    Seq<Event>,
    PrevState,
) {
    if cfg.report_touch && r.len() >= 40 {
        let s0 = touch_slot_step(r, 0, ev, p);
        touch_slot_step(r, 1, s0.0, s0.1)
    } else {
        (ev, p)
    }
}

pub open spec fn accel_step(cfg: ConfigView, r: Seq<u8>, ev: Seq<Event>, p: PrevState) -> (
    Seq<Event>,
    PrevState,
) {
    if cfg.report_accel && r.len() >= 27 {
        let ax = i16_le(r[21], r[22]);
        let ay = i16_le(r[23], r[24]);
        let az = i16_le(r[25], r[26]);
        let t = cfg.accel_threshold as int;
        let moved = abs_diff(ax as int, p.accel_x as int) > t || abs_diff(ay as int, p.accel_y as int)
            > t || abs_diff(az as int, p.accel_z as int) > t;
        (
            if p.accel_init && moved {
                ev.push(Event::Accelerometer { x: ax, y: ay, z: az })
            } else {
                ev
            },
            PrevState { accel_x: ax, accel_y: ay, accel_z: az, accel_init: true, ..p },
        )
    } else {
        (ev, p)
    }
}

pub open spec fn gyro_step(cfg: ConfigView, r: Seq<u8>, ev: Seq<Event>, p: PrevState) -> (
    Seq<Event>,
    PrevState,
) {
    if cfg.report_gyro && r.len() >= 21 {
        let gp = i16_le(r[15], r[16]);
        let gy = i16_le(r[17], r[18]);
        let gr = i16_le(r[19], r[20]);
        let t = cfg.gyro_threshold as int;
        let moved = abs_diff(gp as int, p.gyro_pitch as int) > t || abs_diff(
            gy as int,
            p.gyro_yaw as int,
        ) > t || abs_diff(gr as int, p.gyro_roll as int) > t;
        (
            if p.gyro_init && moved {
                ev.push(Event::Gyroscope { pitch: gp, yaw: gy, roll: gr })
            } else {
                ev
            },
            PrevState { gyro_pitch: gp, gyro_yaw: gy, gyro_roll: gr, gyro_init: true, ..p },
        )
    } else {
        (ev, p)
    }
}

/// The events that report `r` gives, in the order buttons, D-pad, left and
/// right trigger, left and right stick, touchpad, accelerometer, gyroscope,
/// and the state after it.
///
/// Report layout: sticks LX, LY, RX, RY at bytes 0-3, analog triggers L2, R2
/// at 4-5, button bytes at 7-9 (the hat in the lower nibble of byte 7),
/// gyroscope pitch, yaw, roll as little-endian i16 at 15, 17, 19,
/// accelerometer x, y, z at 21, 23, 25, and two 4-byte touch records at 32
/// and 36.
pub open spec fn decode_report(cfg: ConfigView, r: Seq<u8>, p: PrevState) -> (
    Seq<Event>,
    PrevState,
) {
    let s1 = buttons_step(cfg, r, seq![], p);
    let s2 = dpad_step(cfg, r, s1.0, s1.1);
    let s3 = trigger_step(cfg, TriggerSide::Left, r[4], s2.0, s2.1);
    let s4 = trigger_step(cfg, TriggerSide::Right, r[5], s3.0, s3.1);
    let s5 = stick_step(cfg, StickSide::Left, r[0], r[1], s4.0, s4.1);
    let s6 = stick_step(cfg, StickSide::Right, r[2], r[3], s5.0, s5.1);
    let s7 = touch_step(cfg, r, s6.0, s6.1);
    let s8 = accel_step(cfg, r, s7.0, s7.1);
    gyro_step(cfg, r, s8.0, s8.1)
}


// ── exec helpers ──────────────────────────────────────────────────

fn abs_diff_u8(a: u8, b: u8) -> (d: u8)
    ensures
        d == abs_diff(a as int, b as int),
{
    if a >= b {
        a - b
    } else {
        b - a
    }
}

fn abs_diff_i16(a: i16, b: i16) -> (d: u32)
    ensures
        d == abs_diff(a as int, b as int),
{
    let d = a as i32 - b as i32;
    if d >= 0 {
        d as u32
    } else {
        (-d) as u32
    }
}

fn i16_at(report: &[u8], off: usize) -> (v: i16)
    requires
        off + 1 < report@.len(),
    ensures
        v == i16_le(report@[off as int], report@[off + 1]),
{
    let lo = report[off];
    let hi = report[off + 1];
    let u: u16 = (lo as u16) | ((hi as u16) << 8);
    assert(u == lo as u16 + 256 * (hi as u16)) by (bit_vector)
        requires
            u == (lo as u16) | ((hi as u16) << 8),
    ;
    if u >= 32768 {
        (u as i32 - 65536) as i16
    } else {
        u as i16
    }
}

// ── the decoder ───────────────────────────────────────────────────

/// The abstract content of a [`ReportDecoder`].
pub ghost struct DecoderView {
    pub config: ConfigView,
    pub prev: PrevState,
}

/// Turns the input reports of one controller into events, remembering
/// what it has reported so far.
pub struct ReportDecoder {
    config: Config,
    prev: PrevState,
}

impl View for ReportDecoder {
    type V = DecoderView;

    closed spec fn view(&self) -> DecoderView {
        DecoderView { config: self.config@, prev: self.prev }
    }
}

impl ReportDecoder {
    /// A decoder with the given configuration that has seen no report.
    pub fn new(config: Config) -> (d: Self)
        ensures
            d@.config == config@,
            d@.prev == initial_prev(),
    {
        ReportDecoder {
            config,
            prev: PrevState {
                buttons: 0,
                dpad: 0,
                lx: 0,
                ly: 0,
                rx: 0,
                ry: 0,
                l2: 0,
                r2: 0,
                gyro_pitch: 0,
                gyro_yaw: 0,
                gyro_roll: 0,
                accel_x: 0,
                accel_y: 0,
                accel_z: 0,
                gyro_init: false,
                accel_init: false,
                touch0_active: false,
                touch0_id: 0,
                touch1_active: false,
                touch1_id: 0,
            },
        }
    }

    /// Returns a reference to the active [`Config`].
    pub fn config(&self) -> (c: &Config)
        ensures
            c@ == self@.config,
    {
        &self.config
    }

    fn process_buttons(&mut self, report: &[u8], events: &mut Vec<Event>)
        requires
            report@.len() >= 10,
        ensures
            final(self)@.config == old(self)@.config,
            (final(events)@, final(self)@.prev) == buttons_step(
                old(self)@.config,
                report@,
                old(events)@,
                old(self)@.prev,
            ),
    {
        let btn0 = report[O_BTN0];
        let btn1 = report[O_BTN1];
        let btn2 = report[O_BTN2];
        let new_btns = pack_buttons(btn0, btn1, btn2);
        let old_btns = self.prev.buttons;
        if new_btns != old_btns {
            let changed = new_btns ^ old_btns;
            let ghost start = events@;
            let ghost excluded = self@.config.excluded_buttons;
            let ghost f = |bit: u32| button_change(new_btns, old_btns, excluded, bit);
            let mut bit = 1u32;
            assert(1u32 == 1u32 << 0u32) by (bit_vector);
            for k in 0..24
                invariant
                    bit == 1u32 << (k as u32),
                    changed == new_btns ^ old_btns,
                    self@.config.excluded_buttons == excluded,
                    f == (|bit: u32| button_change(new_btns, old_btns, excluded, bit)),
                    events@ == start + packed_bits().take(k as int).filter_map(f),
            {
                proof {
                    packed_bits().lemma_filter_map_take_succ(f, k as int);
                    assert(packed_bits()[k as int] == bit);
                }
                if changed & bit != 0 {
                    if let Some(btn) = bit_to_button(bit) {
                        if self.config.accepts_button(&btn) {
                            if new_btns & bit != 0 {
                                events.push(Event::ButtonPress(btn));
                            } else {
                                events.push(Event::ButtonRelease(btn));
                            }
                        }
                    }
                }
                proof {
                    let kk = k as u32;
                    assert((1u32 << kk) << 1u32 == 1u32 << ((kk + 1) as u32)) by (bit_vector)
                        requires
                            kk < 24,
                    ;
                }
                bit = bit << 1;
                assert(events@ =~= start + packed_bits().take(k + 1).filter_map(f));
            }
            assert(packed_bits().take(24) =~= packed_bits());
            self.prev.buttons = new_btns;
        }
    }

    fn process_dpad(&mut self, report: &[u8], events: &mut Vec<Event>)
        requires
            report@.len() >= 10,
        ensures
            final(self)@.config == old(self)@.config,
            (final(events)@, final(self)@.prev) == dpad_step(
                old(self)@.config,
                report@,
                old(events)@,
                old(self)@.prev,
            ),
    {
        let btn0 = report[O_BTN0];
        let dpad_raw = btn0 & 0x0F;
        assert(dpad_raw == btn0 % 16) by (bit_vector)
            requires
                dpad_raw == btn0 & 0x0F,
        ;
        if dpad_raw != self.prev.dpad && self.config.accepts_button(&Button::DPadUp) {
            events.push(Event::DPadChanged(DPad::from_nibble(dpad_raw)));
            assert(dpad_raw & 0x0F == dpad_raw) by (bit_vector)
                requires
                    dpad_raw == btn0 & 0x0F,
            ;
            self.prev.dpad = dpad_raw;
        }
    }

    fn process_trigger(&mut self, which: TriggerSide, value: u8, events: &mut Vec<Event>)
        ensures
            final(self)@.config == old(self)@.config,
            (final(events)@, final(self)@.prev) == trigger_step(
                old(self)@.config,
                which,
                value,
                old(events)@,
                old(self)@.prev,
            ),
    {
        let threshold = self.config.trigger_threshold();
        let excluded = self.config.excludes_trigger(which);
        let old = match which {
            TriggerSide::Left => self.prev.l2,
            TriggerSide::Right => self.prev.r2,
        };
        if !excluded && abs_diff_u8(value, old) > threshold {
            events.push(Event::Trigger { which, value });
            match which {
                TriggerSide::Left => self.prev.l2 = value,
                TriggerSide::Right => self.prev.r2 = value,
            }
        }
    }

    // ── stick helper ──────────────────────────────────────────────

    fn emit_stick(&mut self, which: StickSide, x: u8, y: u8, out: &mut Vec<Event>)
        ensures
            final(self)@.config == old(self)@.config,
            (final(out)@, final(self)@.prev) == stick_step(
                old(self)@.config,
                which,
                x,
                y,
                old(out)@,
                old(self)@.prev,
            ),
    {
        if self.config.excludes_stick(which) {
            return;
        }
        let (px, py) = match which {
            StickSide::Left => (self.prev.lx, self.prev.ly),
            StickSide::Right => (self.prev.rx, self.prev.ry),
        };
        let dz = self.config.stick_deadzone();
        let thr = self.config.stick_threshold();

        let dx = abs_diff_u8(x, px);
        let dy = abs_diff_u8(y, py);
        if dx <= thr && dy <= thr {
            return;
        }
        if abs_diff_u8(x, 128) <= dz && abs_diff_u8(y, 128) <= dz && abs_diff_u8(px, 128) <= dz
            && abs_diff_u8(py, 128) <= dz {
            return;
        }

        out.push(Event::StickMove { which, x, y });
        match which {
            StickSide::Left => {
                self.prev.lx = x;
                self.prev.ly = y;
            },
            StickSide::Right => {
                self.prev.rx = x;
                self.prev.ry = y;
            },
        }
    }

    // ── touchpad helper ───────────────────────────────────────────

    /// Parse the touch record of one finger slot.
    /// Touch point format (4 bytes):
    ///   byte[0]: bit7 = inactive (1=lifted), bit0-6 = contact ID
    ///   X = byte[1] | ((byte[2] & 0x0F) << 8)   → 12-bit
    ///   Y = (byte[2] >> 4) | (byte[3] << 4)      → 12-bit
    fn process_touch_slot(&mut self, i: u8, report: &[u8], out: &mut Vec<Event>)
        requires
            i < 2,
            report@.len() >= 40,
        ensures
            final(self)@.config == old(self)@.config,
            (final(out)@, final(self)@.prev) == touch_slot_step(
                report@,
                i,
                old(out)@,
                old(self)@.prev,
            ),
    {
        let base = O_TOUCH0 + (i as usize) * 4;
        let b0 = report[base];
        let b1 = report[base + 1];
        let b2 = report[base + 2];
        let b3 = report[base + 3];

        let active = (b0 & 0x80) == 0;
        let contact_id = b0 & 0x7F;
        let x = (b1 as u16) | (((b2 & 0x0F) as u16) << 8);
        let y = ((b2 >> 4) as u16) | ((b3 as u16) << 4);
        assert(active == (b0 < 128) && contact_id == b0 % 128 && x == b1 + 256 * (b2 % 16) && y
            == b2 / 16 + 16 * b3) by (bit_vector)
            requires
                active == ((b0 & 0x80) == 0),
                contact_id == b0 & 0x7F,
                x == (b1 as u16) | (((b2 & 0x0F) as u16) << 8),
                y == ((b2 >> 4) as u16) | ((b3 as u16) << 4),
        ;

        // discard out-of-range noise that appears when idle
        let in_range = x < TOUCHPAD_MAX_X && y < TOUCHPAD_MAX_Y;

        let (was_active, prev_id) = if i == 0 {
            (self.prev.touch0_active, self.prev.touch0_id)
        } else {
            (self.prev.touch1_active, self.prev.touch1_id)
        };

        let tp = TouchPoint { finger: i, x, y, contact_id };
        assert(tp == touch_point_at(report@, i));

        match (was_active && in_range, active && in_range) {
            (false, true) => out.push(Event::TouchDown(tp)),
            (true, true) => {
                if contact_id == prev_id {
                    out.push(Event::TouchMove(tp));
                } else {
                    out.push(Event::TouchUp { finger: i });
                    out.push(Event::TouchDown(tp));
                }
            },
            (true, false) => out.push(Event::TouchUp { finger: i }),
            _ => {},
        }

        if i == 0 {
            self.prev.touch0_active = active && in_range;
            self.prev.touch0_id = contact_id;
        } else {
            self.prev.touch1_active = active && in_range;
            self.prev.touch1_id = contact_id;
        }
    }

    fn process_touch(&mut self, report: &[u8], out: &mut Vec<Event>)
        requires
            report@.len() >= 40,
        ensures
            final(self)@.config == old(self)@.config,
            (final(out)@, final(self)@.prev) == ({
                let s0 = touch_slot_step(report@, 0, old(out)@, old(self)@.prev);
                touch_slot_step(report@, 1, s0.0, s0.1)
            }),
    {
        self.process_touch_slot(0, report, out);
        self.process_touch_slot(1, report, out);
    }

    fn process_accel(&mut self, report: &[u8], events: &mut Vec<Event>)
        ensures
            final(self)@.config == old(self)@.config,
            (final(events)@, final(self)@.prev) == accel_step(
                old(self)@.config,
                report@,
                old(events)@,
                old(self)@.prev,
            ),
    {
        if self.config.report_accel() && report.len() >= O_ACCEL_Z + 2 {
            let threshold = self.config.accel_threshold() as u32;
            let ax = i16_at(report, O_ACCEL_X);
            let ay = i16_at(report, O_ACCEL_Y);
            let az = i16_at(report, O_ACCEL_Z);
            if self.prev.accel_init {
                let dx = abs_diff_i16(ax, self.prev.accel_x);
                let dy = abs_diff_i16(ay, self.prev.accel_y);
                let dz = abs_diff_i16(az, self.prev.accel_z);
                if dx > threshold || dy > threshold || dz > threshold {
                    events.push(Event::Accelerometer { x: ax, y: ay, z: az });
                }
            }
            self.prev.accel_x = ax;
            self.prev.accel_y = ay;
            self.prev.accel_z = az;
            self.prev.accel_init = true;
        }
    }

    fn process_gyro(&mut self, report: &[u8], events: &mut Vec<Event>)
        ensures
            final(self)@.config == old(self)@.config,
            (final(events)@, final(self)@.prev) == gyro_step(
                old(self)@.config,
                report@,
                old(events)@,
                old(self)@.prev,
            ),
    {
        if self.config.report_gyro() && report.len() >= O_GYRO_ROLL + 2 {
            let threshold = self.config.gyro_threshold() as u32;
            let gp = i16_at(report, O_GYRO_PITCH);
            let gy = i16_at(report, O_GYRO_YAW);
            let gr = i16_at(report, O_GYRO_ROLL);
            if self.prev.gyro_init {
                let dp = abs_diff_i16(gp, self.prev.gyro_pitch);
                let dy = abs_diff_i16(gy, self.prev.gyro_yaw);
                let dr = abs_diff_i16(gr, self.prev.gyro_roll);
                if dp > threshold || dy > threshold || dr > threshold {
                    events.push(Event::Gyroscope { pitch: gp, yaw: gy, roll: gr });
                }
            }
            self.prev.gyro_pitch = gp;
            self.prev.gyro_yaw = gy;
            self.prev.gyro_roll = gr;
            self.prev.gyro_init = true;
        }
    }

    // ── report processing ─────────────────────────────────────────

    /// Turn one report (the data part, after the Report ID / Bluetooth
    /// header) into events and remember what it carried.
    pub fn process_report(&mut self, report: &[u8]) -> (events: Vec<Event>)
        requires
            report@.len() >= 10,
        ensures
            final(self)@.config == old(self)@.config,
            (events@, final(self)@.prev) == decode_report(
                old(self)@.config,
                report@,
                old(self)@.prev,
            ),
    {
        let mut events: Vec<Event> = Vec::new();

        // ── buttons ───────────────────────────────────────────────
        self.process_buttons(report, &mut events);
        // ── d-pad ─────────────────────────────────────────────────
        self.process_dpad(report, &mut events);
        // ── triggers (analog) ─────────────────────────────────────
        let l2 = report[O_L2];
        self.process_trigger(TriggerSide::Left, l2, &mut events);
        let r2 = report[O_R2];
        self.process_trigger(TriggerSide::Right, r2, &mut events);
        // ── sticks ────────────────────────────────────────────────
        let lx = report[O_LX];
        let ly = report[O_LY];
        self.emit_stick(StickSide::Left, lx, ly, &mut events);
        let rx = report[O_RX];
        let ry = report[O_RY];
        self.emit_stick(StickSide::Right, rx, ry, &mut events);
        // ── touchpad ──────────────────────────────────────────────
        if self.config.report_touch() && report.len() >= O_TOUCH1 + 4 {
            self.process_touch(report, &mut events);
        }
        // ── accelerometer ─────────────────────────────────────────
        self.process_accel(report, &mut events);
        // ── gyroscope ─────────────────────────────────────────────
        self.process_gyro(report, &mut events);
        events
    }

    // ── report extraction ─────────────────────────────────────────

    /// Extract the data portion from raw HID buffer, handling various
    /// report formats (USB/BT, with/without Report ID).
    pub fn extract_report<'a>(buf: &'a [u8], n: usize) -> (data: Option<&'a [u8]>)
        requires
            extract_defined(buf@.len(), n),
        ensures
            match data {
                Some(d) => report_data(buf@, n) == Some(d@),
                None => report_data(buf@, n) is None,
            },
    {
        if n == 63 {
            Some(slice_subrange(buf, 0, 63))  // USB, no Report ID
        } else if n == 64 {
            if buf[0] == 0x01 {
                Some(slice_subrange(buf, 1, 64))  // USB, with Report ID
            } else {
                Some(slice_subrange(buf, 0, 64))  // USB, non-standard
            }
        } else if n == 77 {
            Some(slice_subrange(buf, 2, buf.len()))  // BT, no Report ID
        } else if n == 78 {
            if buf[0] == 0x01 {
                Some(slice_subrange(buf, 3, buf.len()))  // BT, with Report ID
            } else {
                Some(slice_subrange(buf, 2, buf.len()))  // BT, non-standard
            }
        } else {
            None
        }
    }

    /// Handle the first `n` bytes that one read put into `buf`: extract
    /// the report data and, when it is long enough, turn it into events.
    pub fn process_read(&mut self, buf: &[u8], n: usize) -> (events: Vec<Event>)
        requires
            extract_defined(buf@.len(), n),
        ensures
            final(self)@.config == old(self)@.config,
            (events@, final(self)@.prev) == read_events(old(self)@.config, buf@, n, old(self)@.prev),
    {
        if n < 2 {
            return Vec::new();
        }
        if let Some(data) = Self::extract_report(buf, n) {
            if data.len() >= DATA_MIN_LEN {
                return self.process_report(data);
            }
        }
        Vec::new()
    }

    /// One round of a non-blocking poll: what to do with the outcome of a
    /// read into `buf`.
    pub fn poll_step(&mut self, outcome: ReadOutcome, buf: &[u8]) -> (step: PollStep)
        requires
            outcome matches ReadOutcome::Bytes(n) ==> extract_defined(buf@.len(), n),
        ensures
            final(self)@.config == old(self)@.config,
            match outcome {
                ReadOutcome::Bytes(n) => if n >= 2 {
                    step matches PollStep::Continue(evs) && (evs@, final(self)@.prev)
                        == read_events(old(self)@.config, buf@, n, old(self)@.prev)
                } else {
                    step is Stop && final(self)@.prev == old(self)@.prev
                },
                ReadOutcome::ApiError => step is Stop && final(self)@.prev == old(self)@.prev,
                ReadOutcome::OtherError => step is Fail && final(self)@.prev == old(self)@.prev,
            },
    {
        match outcome {
            ReadOutcome::Bytes(n) => {
                if n >= 2 {
                    PollStep::Continue(self.process_read(buf, n))
                } else {
                    PollStep::Stop
                }
            },
            ReadOutcome::ApiError => PollStep::Stop,
            ReadOutcome::OtherError => PollStep::Fail,
        }
    }
}

/// Whether the raw report formats can be cut out of a buffer of `len`
/// bytes that a read filled with `n` bytes.
pub open spec fn extract_defined(len: nat, n: usize) -> bool {
    &&& n == 63 ==> len >= 63
    &&& n == 64 ==> len >= 64
    &&& n == 77 ==> len >= 2
    &&& n == 78 ==> len >= 3
}

/// The data portion of a raw read of `n` bytes: USB reports are 63 bytes,
/// or 64 with a leading Report ID 0x01; Bluetooth reports are 77 bytes,
/// or 78 with a Report ID 0x01, and carry a header of two bytes (three
/// with the Report ID) before the data, which then runs to the buffer's end.
pub open spec fn report_data(buf: Seq<u8>, n: usize) -> Option<Seq<u8>> {
    if n == 63 {
        Some(buf.subrange(0, 63))
    } else if n == 64 {
        if buf[0] == 1 {
            Some(buf.subrange(1, 64))
        } else {
            Some(buf.subrange(0, 64))
        }
    } else if n == 77 {
        Some(buf.subrange(2, buf.len() as int))
    } else if n == 78 {
        if buf[0] == 1 {
            Some(buf.subrange(3, buf.len() as int))
        } else {
            Some(buf.subrange(2, buf.len() as int))
        }
    } else {
        None
    }
}

/// The events and next state of a read of `n` bytes into `buf`: reports
/// whose data is shorter than [`DATA_MIN_LEN`] are ignored.
pub open spec fn read_events(cfg: ConfigView, buf: Seq<u8>, n: usize, p: PrevState) -> (
    Seq<Event>,
    PrevState,
) {
    match report_data(buf, n) {
        Some(d) => if n >= 2 && d.len() >= DATA_MIN_LEN {
            decode_report(cfg, d, p)
        } else {
            (seq![], p)
        },
        None => (seq![], p),
    }
}

/// How a read of the device ended.
#[derive(Debug, Clone, Copy, PartialEq, Eq)]
pub enum ReadOutcome {
    /// The read put this many bytes into the buffer.
    Bytes(usize),
    /// The HID library reported an error with a message (for a
    /// non-blocking read: nothing more to read now).
    ApiError,
    /// Any other failure of the device.
    OtherError,
}

/// What a poll does after one read.
#[derive(Debug)]
pub enum PollStep {
    /// Keep these events and read again.
    Continue(Vec<Event>),
    /// Stop reading; the poll is done.
    Stop,
    /// Stop reading and report the read's error.
    Fail,
}

// ── device selection ──────────────────────────────────────────────

/// What device selection reads of an enumerated HID device.
#[derive(Debug, Clone, Copy, PartialEq, Eq)]
pub struct DeviceSummary {
    pub vendor_id: u16,
    pub product_id: u16,
    pub usage_page: u16,
    pub usage: u16,
}

pub open spec fn is_dualsense(d: DeviceSummary) -> bool {
    d.vendor_id == SONY_VID && d.product_id == DUALSENSE_PID
}

/// A DualSense interface with the Gamepad usage (page 0x01, usage 0x05).
pub open spec fn is_gamepad_interface(d: DeviceSummary) -> bool {
    is_dualsense(d) && d.usage_page == 1 && d.usage == 5
}

/// Pick the DualSense interface to open: the first one with the Gamepad
/// usage if there is one, else the first DualSense in the list.
pub fn select_device(devices: &[DeviceSummary]) -> (r: Option<usize>)
    ensures
        match r {
            None => forall|j: int| 0 <= j < devices@.len() ==> !is_dualsense(#[trigger] devices@[j]),
            Some(i) => {
                &&& i < devices@.len()
                &&& is_dualsense(devices@[i as int])
                &&& if is_gamepad_interface(devices@[i as int]) {
                    forall|j: int| 0 <= j < i ==> !is_gamepad_interface(#[trigger] devices@[j])
                } else {
                    &&& forall|j: int|
                        0 <= j < devices@.len() ==> !is_gamepad_interface(#[trigger] devices@[j])
                    &&& forall|j: int| 0 <= j < i ==> !is_dualsense(#[trigger] devices@[j])
                }
            },
        },
{
    let mut best: Option<usize> = None;
    let n = devices.len();
    let mut i: usize = 0;
    while i < n
        invariant
            n == devices@.len(),
            i <= n,
            forall|j: int| 0 <= j < i ==> !is_gamepad_interface(#[trigger] devices@[j]),
            match best {
                None => forall|j: int| 0 <= j < i ==> !is_dualsense(#[trigger] devices@[j]),
                Some(b) => {
                    &&& b < i
                    &&& is_dualsense(devices@[b as int])
                    &&& forall|j: int| 0 <= j < b ==> !is_dualsense(#[trigger] devices@[j])
                },
            },
        decreases n - i,
    {
        let d = devices[i];
        if d.vendor_id == SONY_VID && d.product_id == DUALSENSE_PID {
            if best.is_none() {
                best = Some(i);
            }
            // Prefer Gamepad usage (page=0x01, usage=0x05)
            if d.usage_page == 0x01 && d.usage == 0x05 {
                return Some(i);
            }
        }
        i = i + 1;
    }
    best
}

} // verus!

verus! {

// ── laws ──────────────────────────────────────────────────────────

/// Whether the configuration lets an event through: excluded buttons,
/// triggers and sticks give no event (the D-pad counts as excluded with
/// `DPadUp`), and touch, gyroscope and accelerometer events come only
/// while their reporting is on.
pub open spec fn event_allowed(cfg: ConfigView, e: Event) -> bool {
    match e {
        Event::ButtonPress(b) => !cfg.excluded_buttons.contains(b),
        Event::ButtonRelease(b) => !cfg.excluded_buttons.contains(b),
        Event::DPadChanged(_) => !cfg.excluded_buttons.contains(Button::DPadUp),
        Event::Trigger { which, .. } => !cfg.excluded_triggers.contains(which),
        Event::StickMove { which, .. } => !cfg.excluded_sticks.contains(which),
        Event::TouchDown(_) => cfg.report_touch,
        Event::TouchMove(_) => cfg.report_touch,
        Event::TouchUp { .. } => cfg.report_touch,
        Event::Gyroscope { .. } => cfg.report_gyro,
        Event::Accelerometer { .. } => cfg.report_accel,
    }
}

pub open spec fn all_allowed(cfg: ConfigView, evs: Seq<Event>) -> bool {
    forall|i: int| 0 <= i < evs.len() ==> event_allowed(cfg, #[trigger] evs[i])
}

proof fn lemma_button_events_allowed(new: u32, old: u32, cfg: ConfigView)
    ensures
        all_allowed(cfg, button_events(new, old, cfg.excluded_buttons)),
{
    let f = |bit: u32| button_change(new, old, cfg.excluded_buttons, bit);
    let evs = button_events(new, old, cfg.excluded_buttons);
    assert forall|i: int| 0 <= i < evs.len() implies event_allowed(cfg, #[trigger] evs[i]) by {
        assert(evs.contains(evs[i]));
        packed_bits().lemma_filter_map_contains(f, evs[i]);
        let bit = choose|t: u32| #[trigger] packed_bits().contains(t) && f(t) == Some(evs[i]);
        assert(f(bit) == Some(evs[i]));
    }
}

/// Every event that a report gives is one that the configuration lets
/// through.
pub proof fn lemma_events_respect_config(cfg: ConfigView, r: Seq<u8>, p: PrevState)
    ensures
        all_allowed(cfg, decode_report(cfg, r, p).0),
{
    let new = packed_word(r[7], r[8], r[9]);
    lemma_button_events_allowed(new, p.buttons, cfg);
    let s1 = buttons_step(cfg, r, seq![], p);
    assert(all_allowed(cfg, s1.0));
    let s2 = dpad_step(cfg, r, s1.0, s1.1);
    assert(all_allowed(cfg, s2.0));
    let s3 = trigger_step(cfg, TriggerSide::Left, r[4], s2.0, s2.1);
    assert(all_allowed(cfg, s3.0));
    let s4 = trigger_step(cfg, TriggerSide::Right, r[5], s3.0, s3.1);
    assert(all_allowed(cfg, s4.0));
    let s5 = stick_step(cfg, StickSide::Left, r[0], r[1], s4.0, s4.1);
    assert(all_allowed(cfg, s5.0));
    let s6 = stick_step(cfg, StickSide::Right, r[2], r[3], s5.0, s5.1);
    assert(all_allowed(cfg, s6.0));
    let s7 = touch_step(cfg, r, s6.0, s6.1);
    if cfg.report_touch && r.len() >= 40 {
        let t0 = touch_slot_step(r, 0, s6.0, s6.1);
        assert(all_allowed(cfg, t0.0));
    }
    assert(all_allowed(cfg, s7.0));
    let s8 = accel_step(cfg, r, s7.0, s7.1);
    assert(all_allowed(cfg, s8.0));
    let s9 = gyro_step(cfg, r, s8.0, s8.1);
    assert(all_allowed(cfg, s9.0));
}

/// Whether every event of `evs` is a touch move.
pub open spec fn only_touch_moves(evs: Seq<Event>) -> bool {
    forall|i: int| 0 <= i < evs.len() ==> (#[trigger] evs[i] is TouchMove)
}

/// Feeding the same report twice in a row changes nothing the second
/// time: the state stays as the first time left it, and the only events
/// are touch moves of fingers that stay on the pad.
pub proof fn lemma_repeated_report_is_quiet(cfg: ConfigView, r: Seq<u8>, p: PrevState)
    ensures
        ({
            let (e1, p1) = decode_report(cfg, r, p);
            let (e2, p2) = decode_report(cfg, r, p1);
            &&& p2 == p1
            &&& only_touch_moves(e2)
        }),
{
    let e: Seq<Event> = seq![];
    let s1 = buttons_step(cfg, r, e, p);
    let s2 = dpad_step(cfg, r, s1.0, s1.1);
    let s3 = trigger_step(cfg, TriggerSide::Left, r[4], s2.0, s2.1);
    let s4 = trigger_step(cfg, TriggerSide::Right, r[5], s3.0, s3.1);
    let s5 = stick_step(cfg, StickSide::Left, r[0], r[1], s4.0, s4.1);
    let s6 = stick_step(cfg, StickSide::Right, r[2], r[3], s5.0, s5.1);
    let s7 = touch_step(cfg, r, s6.0, s6.1);
    let s8 = accel_step(cfg, r, s7.0, s7.1);
    let s9 = gyro_step(cfg, r, s8.0, s8.1);
    let p1 = s9.1;

    let q1 = buttons_step(cfg, r, e, p1);
    assert(q1 == (e, p1));
    let q2 = dpad_step(cfg, r, e, p1);
    assert(q2 == (e, p1));
    let q3 = trigger_step(cfg, TriggerSide::Left, r[4], e, p1);
    assert(q3 == (e, p1));
    let q4 = trigger_step(cfg, TriggerSide::Right, r[5], e, p1);
    assert(q4 == (e, p1));
    let q5 = stick_step(cfg, StickSide::Left, r[0], r[1], e, p1);
    assert(q5 == (e, p1));
    let q6 = stick_step(cfg, StickSide::Right, r[2], r[3], e, p1);
    assert(q6 == (e, p1));
    let q7 = touch_step(cfg, r, e, p1);
    assert(q7.1 == p1);
    assert(only_touch_moves(q7.0));
    let q8 = accel_step(cfg, r, q7.0, p1);
    assert(q8 == (q7.0, p1));
    let q9 = gyro_step(cfg, r, q7.0, p1);
    assert(q9 == (q7.0, p1));
}

proof fn lemma_filter_map_has<A, B>(s: Seq<A>, f: spec_fn(A) -> Option<B>, i: int)
    requires
        0 <= i < s.len(),
        f(s[i]) is Some,
    ensures
        s.filter_map(f).contains(f(s[i]).unwrap()),
    decreases s.len(),
{
    broadcast use vstd::seq_lib::group_seq_properties;

    let rest = s.drop_last();
    let out = f(s[i]).unwrap();
    if i == s.len() - 1 {
        assert(s.filter_map(f) == rest.filter_map(f) + seq![out]);
        assert(s.filter_map(f)[rest.filter_map(f).len() as int] == out);
    } else {
        lemma_filter_map_has(rest, f, i);
        assert(rest[i] == s[i]);
        let k = choose|k: int| 0 <= k < rest.filter_map(f).len() && rest.filter_map(f)[k] == out;
        match f(s.last()) {
            Some(x) => {
                assert(s.filter_map(f) == rest.filter_map(f) + seq![x]);
                assert(s.filter_map(f)[k] == out);
            },
            None => {
                assert(s.filter_map(f) == rest.filter_map(f));
            },
        }
    }
}

/// The position of each button's bit in the packed word.
proof fn lemma_packed_bit_position(b: Button) -> (k: u32)
    requires
        packed_bit(b) is Some,
    ensures
        4 <= k <= 18,
        packed_bit(b) == Some(1u32 << k),
        packed_bits()[k as int] == 1u32 << k,
{
    assert(1u32 << 4u32 == 0x10u32 && 1u32 << 5u32 == 0x20u32 && 1u32 << 6u32 == 0x40u32 && 1u32
        << 7u32 == 0x80u32 && 1u32 << 8u32 == 0x100u32 && 1u32 << 9u32 == 0x200u32 && 1u32 << 10u32
        == 0x400u32 && 1u32 << 11u32 == 0x800u32 && 1u32 << 12u32 == 0x1000u32 && 1u32 << 13u32
        == 0x2000u32 && 1u32 << 14u32 == 0x4000u32 && 1u32 << 15u32 == 0x8000u32 && 1u32 << 16u32
        == 0x1_0000u32 && 1u32 << 17u32 == 0x2_0000u32 && 1u32 << 18u32 == 0x4_0000u32)
        by (bit_vector);
    match b {
        Button::Square => 4,
        Button::Cross => 5,
        Button::Circle => 6,
        Button::Triangle => 7,
        Button::L1 => 8,
        Button::R1 => 9,
        Button::L2Digital => 10,
        Button::R2Digital => 11,
        Button::Create => 12,
        Button::Options => 13,
        Button::L3 => 14,
        Button::R3 => 15,
        Button::PS => 16,
        Button::Touchpad => 17,
        _ => 18,
    }
}

proof fn lemma_single_bit_change(new: u32, old: u32, k: u32)
    requires
        k < 32,
    ensures
        ((new ^ old) & (1u32 << k) != 0 && new & (1u32 << k) != 0) <==> (new & (1u32 << k) != 0
            && old & (1u32 << k) == 0),
        ((new ^ old) & (1u32 << k) != 0 && new & (1u32 << k) == 0) <==> (new & (1u32 << k) == 0
            && old & (1u32 << k) != 0),
{
    assert(((new ^ old) & (1u32 << k) != 0 && new & (1u32 << k) != 0) <==> (new & (1u32 << k) != 0
        && old & (1u32 << k) == 0)) by (bit_vector)
        requires
            k < 32,
    ;
    assert(((new ^ old) & (1u32 << k) != 0 && new & (1u32 << k) == 0) <==> (new & (1u32 << k) == 0
        && old & (1u32 << k) != 0)) by (bit_vector)
        requires
            k < 32,
    ;
}

/// A change of the packed button word gives a press of a button exactly
/// when the button went from released to held and is not excluded, and a
/// release exactly when it went from held to released and is not excluded.
pub proof fn lemma_button_events_exact(new: u32, old: u32, excluded: Set<Button>, b: Button)
    ensures
        button_events(new, old, excluded).contains(Event::ButtonPress(b)) <==> (is_held(new, b)
            && !is_held(old, b) && !excluded.contains(b)),
        button_events(new, old, excluded).contains(Event::ButtonRelease(b)) <==> (!is_held(new, b)
            && is_held(old, b) && !excluded.contains(b)),
{
    let f = |bit: u32| button_change(new, old, excluded, bit);
    let evs = button_events(new, old, excluded);
    if evs.contains(Event::ButtonPress(b)) {
        let e = Event::ButtonPress(b);
        packed_bits().lemma_filter_map_contains(f, e);
        let bit = choose|t: u32| #[trigger] packed_bits().contains(t) && f(t) == Some(e);
        let j = choose|j: int| 0 <= j < packed_bits().len() && packed_bits()[j] == bit;
        assert(button_for_bit(bit) == Some(b));
        lemma_bit_decoding_inverts_bit_table(b, bit);
        lemma_single_bit_change(new, old, j as u32);
    }
    if evs.contains(Event::ButtonRelease(b)) {
        let e = Event::ButtonRelease(b);
        packed_bits().lemma_filter_map_contains(f, e);
        let bit = choose|t: u32| #[trigger] packed_bits().contains(t) && f(t) == Some(e);
        let j = choose|j: int| 0 <= j < packed_bits().len() && packed_bits()[j] == bit;
        assert(button_for_bit(bit) == Some(b));
        lemma_bit_decoding_inverts_bit_table(b, bit);
        lemma_single_bit_change(new, old, j as u32);
    }
    if packed_bit(b) is Some {
        let k = lemma_packed_bit_position(b);
        let m = 1u32 << k;
        lemma_bit_decoding_inverts_bit_table(b, m);
        lemma_single_bit_change(new, old, k);
        if is_held(new, b) != is_held(old, b) && !excluded.contains(b) {
            lemma_filter_map_has(packed_bits(), f, k as int);
        }
    }
}

pub(crate) proof fn lemma_add_contains(a: Seq<Event>, b: Seq<Event>, e: Event)
    ensures
        (a + b).contains(e) <==> (a.contains(e) || b.contains(e)),
{
    if (a + b).contains(e) {
        let i = choose|i: int| 0 <= i < (a + b).len() && (a + b)[i] == e;
        if i >= a.len() {
            assert(b[i - a.len()] == e);
        }
    }
    if a.contains(e) {
        let i = choose|i: int| 0 <= i < a.len() && a[i] == e;
        assert((a + b)[i] == e);
    }
    if b.contains(e) {
        let i = choose|i: int| 0 <= i < b.len() && b[i] == e;
        assert((a + b)[a.len() + i] == e);
    }
}

pub(crate) proof fn lemma_push_contains(a: Seq<Event>, x: Event, e: Event)
    ensures
        a.push(x).contains(e) <==> (a.contains(e) || x == e),
{
    assert(a.push(x) == a + seq![x]);
    lemma_add_contains(a, seq![x], e);
    assert(seq![x][0] == x);
}

/// A report gives a press of a button exactly when the button is held in
/// the report, was not held in the report before, and is not excluded; a
/// release exactly when it was held before, is not held now, and is not
/// excluded.
pub proof fn lemma_report_button_events(cfg: ConfigView, r: Seq<u8>, p: PrevState, b: Button)
    ensures
        ({
            let new = packed_word(r[7], r[8], r[9]);
            let evs = decode_report(cfg, r, p).0;
            &&& evs.contains(Event::ButtonPress(b)) <==> (is_held(new, b) && !is_held(p.buttons, b)
                && !cfg.excluded_buttons.contains(b))
            &&& evs.contains(Event::ButtonRelease(b)) <==> (!is_held(new, b) && is_held(
                p.buttons,
                b,
            ) && !cfg.excluded_buttons.contains(b))
        }),
{
    let new = packed_word(r[7], r[8], r[9]);
    lemma_button_events_exact(new, p.buttons, cfg.excluded_buttons, b);
    let e: Seq<Event> = seq![];
    let s1 = buttons_step(cfg, r, e, p);
    let s2 = dpad_step(cfg, r, s1.0, s1.1);
    let s3 = trigger_step(cfg, TriggerSide::Left, r[4], s2.0, s2.1);
    let s4 = trigger_step(cfg, TriggerSide::Right, r[5], s3.0, s3.1);
    let s5 = stick_step(cfg, StickSide::Left, r[0], r[1], s4.0, s4.1);
    let s6 = stick_step(cfg, StickSide::Right, r[2], r[3], s5.0, s5.1);
    let s7 = touch_step(cfg, r, s6.0, s6.1);
    let s8 = accel_step(cfg, r, s7.0, s7.1);
    let s9 = gyro_step(cfg, r, s8.0, s8.1);
    assert forall|ev: Event| ev is ButtonPress || ev is ButtonRelease implies (s9.0.contains(ev)
        <==> s1.0.contains(ev)) by {
        lemma_add_contains(e, button_events(new, p.buttons, cfg.excluded_buttons), ev);
        lemma_push_contains(s1.0, Event::DPadChanged(dpad_of_hat((r[7] % 16) as u8)), ev);
        lemma_push_contains(s2.0, Event::Trigger { which: TriggerSide::Left, value: r[4] }, ev);
        lemma_push_contains(s3.0, Event::Trigger { which: TriggerSide::Right, value: r[5] }, ev);
        lemma_push_contains(
            s4.0,
            Event::StickMove { which: StickSide::Left, x: r[0], y: r[1] },
            ev,
        );
        lemma_push_contains(
            s5.0,
            Event::StickMove { which: StickSide::Right, x: r[2], y: r[3] },
            ev,
        );
        if cfg.report_touch && r.len() >= 40 {
            let t0 = touch_slot_step(r, 0, s6.0, s6.1);
            let tr0 = touch_transition(
                s6.1.touch0_active,
                s6.1.touch0_id,
                touch_active_at(r, 0),
                touch_point_at(r, 0),
            );
            let tr1 = touch_transition(
                t0.1.touch1_active,
                t0.1.touch1_id,
                touch_active_at(r, 1),
                touch_point_at(r, 1),
            );
            lemma_add_contains(s6.0, tr0, ev);
            lemma_add_contains(t0.0, tr1, ev);
            assert(!tr0.contains(ev));
            assert(!tr1.contains(ev));
        }
        let ax = i16_le(r[21], r[22]);
        let ay = i16_le(r[23], r[24]);
        let az = i16_le(r[25], r[26]);
        lemma_push_contains(s7.0, Event::Accelerometer { x: ax, y: ay, z: az }, ev);
        let gp = i16_le(r[15], r[16]);
        let gy = i16_le(r[17], r[18]);
        let gr = i16_le(r[19], r[20]);
        lemma_push_contains(s8.0, Event::Gyroscope { pitch: gp, yaw: gy, roll: gr }, ev);
    }
    if new == p.buttons {
        assert(s1.0 =~= e);
    } else {
        assert(s1.0 =~= button_events(new, p.buttons, cfg.excluded_buttons));
    }
}

/// What an event of report `r` in state `p` says of the report: buttons
/// changed, the hat changed, analog values moved by more than their
/// thresholds and left the stick dead-zone, touches begin, move and end on
/// fingers that are or were down, motion readings follow an earlier reading
/// and moved by more than their threshold on some axis.
pub open spec fn event_justified(cfg: ConfigView, r: Seq<u8>, p: PrevState, e: Event) -> bool {
    let new = packed_word(r[7], r[8], r[9]);
    match e {
        Event::ButtonPress(b) => is_held(new, b) && !is_held(p.buttons, b),
        Event::ButtonRelease(b) => !is_held(new, b) && is_held(p.buttons, b),
        Event::DPadChanged(d) => {
            let hat = (r[7] % 16) as u8;
            hat != p.dpad && d == dpad_of_hat(hat)
        },
        Event::Trigger { which, value } => match which {
            TriggerSide::Left => value == r[4] && abs_diff(value as int, p.l2 as int)
                > cfg.trigger_threshold,
            TriggerSide::Right => value == r[5] && abs_diff(value as int, p.r2 as int)
                > cfg.trigger_threshold,
        },
        Event::StickMove { which, x, y } => match which {
            StickSide::Left => x == r[0] && y == r[1] && stick_moves(cfg, which, x, y, p.lx, p.ly),
            StickSide::Right => x == r[2] && y == r[3] && stick_moves(cfg, which, x, y, p.rx, p.ry),
        },
        Event::TouchDown(tp) => {
            &&& tp.finger < 2
            &&& tp == touch_point_at(r, tp.finger)
            &&& touch_active_at(r, tp.finger)
            &&& in_touch_range(tp)
        },
        Event::TouchMove(tp) => {
            &&& tp.finger < 2
            &&& tp == touch_point_at(r, tp.finger)
            &&& touch_active_at(r, tp.finger)
            &&& in_touch_range(tp)
            &&& if tp.finger == 0 {
                p.touch0_active && p.touch0_id == tp.contact_id
            } else {
                p.touch1_active && p.touch1_id == tp.contact_id
            }
        },
        Event::TouchUp { finger } => finger < 2 && if finger == 0 {
            p.touch0_active
        } else {
            p.touch1_active
        },
        Event::Gyroscope { pitch, yaw, roll } => {
            &&& p.gyro_init
            &&& pitch == i16_le(r[15], r[16]) && yaw == i16_le(r[17], r[18]) && roll == i16_le(
                r[19],
                r[20],
            )
            &&& (abs_diff(pitch as int, p.gyro_pitch as int) > cfg.gyro_threshold || abs_diff(
                yaw as int,
                p.gyro_yaw as int,
            ) > cfg.gyro_threshold || abs_diff(roll as int, p.gyro_roll as int)
                > cfg.gyro_threshold)
        },
        Event::Accelerometer { x, y, z } => {
            &&& p.accel_init
            &&& x == i16_le(r[21], r[22]) && y == i16_le(r[23], r[24]) && z == i16_le(r[25], r[26])
            &&& (abs_diff(x as int, p.accel_x as int) > cfg.accel_threshold || abs_diff(
                y as int,
                p.accel_y as int,
            ) > cfg.accel_threshold || abs_diff(z as int, p.accel_z as int)
                > cfg.accel_threshold)
        },
    }
}

pub open spec fn all_justified(cfg: ConfigView, r: Seq<u8>, p: PrevState, evs: Seq<Event>) -> bool {
    forall|i: int| 0 <= i < evs.len() ==> event_justified(cfg, r, p, #[trigger] evs[i])
}

/// Every event that a report gives reflects a change that the report
/// carries with respect to what was reported before: a button that changed,
/// a hat that changed, an analog value or motion reading that moved by more
/// than its threshold, a touch that began, moved or ended.
pub proof fn lemma_events_reflect_changes(cfg: ConfigView, r: Seq<u8>, p: PrevState)
    ensures
        all_justified(cfg, r, p, decode_report(cfg, r, p).0),
{
    let new = packed_word(r[7], r[8], r[9]);
    let e: Seq<Event> = seq![];
    let s1 = buttons_step(cfg, r, e, p);
    if new != p.buttons {
        let f = |bit: u32| button_change(new, p.buttons, cfg.excluded_buttons, bit);
        let evs = button_events(new, p.buttons, cfg.excluded_buttons);
        assert forall|i: int| 0 <= i < evs.len() implies event_justified(
            cfg,
            r,
            p,
            #[trigger] evs[i],
        ) by {
            assert(evs.contains(evs[i]));
            packed_bits().lemma_filter_map_contains(f, evs[i]);
            let bit = choose|t: u32| #[trigger] packed_bits().contains(t) && f(t) == Some(evs[i]);
            assert(f(bit) == Some(evs[i]));
            match evs[i] {
                Event::ButtonPress(b) => {
                    lemma_button_events_exact(new, p.buttons, cfg.excluded_buttons, b);
                },
                Event::ButtonRelease(b) => {
                    lemma_button_events_exact(new, p.buttons, cfg.excluded_buttons, b);
                },
                _ => {},
            }
        }
        assert(s1.0 =~= evs);
    }
    assert(all_justified(cfg, r, p, s1.0));
    let s2 = dpad_step(cfg, r, s1.0, s1.1);
    assert(all_justified(cfg, r, p, s2.0));
    let s3 = trigger_step(cfg, TriggerSide::Left, r[4], s2.0, s2.1);
    assert(all_justified(cfg, r, p, s3.0));
    let s4 = trigger_step(cfg, TriggerSide::Right, r[5], s3.0, s3.1);
    assert(all_justified(cfg, r, p, s4.0));
    let s5 = stick_step(cfg, StickSide::Left, r[0], r[1], s4.0, s4.1);
    assert(all_justified(cfg, r, p, s5.0));
    let s6 = stick_step(cfg, StickSide::Right, r[2], r[3], s5.0, s5.1);
    assert(all_justified(cfg, r, p, s6.0));
    let s7 = touch_step(cfg, r, s6.0, s6.1);
    if cfg.report_touch && r.len() >= 40 {
        let t0 = touch_slot_step(r, 0, s6.0, s6.1);
        assert(all_justified(cfg, r, p, t0.0));
    }
    assert(all_justified(cfg, r, p, s7.0));
    let s8 = accel_step(cfg, r, s7.0, s7.1);
    assert(all_justified(cfg, r, p, s8.0));
    let s9 = gyro_step(cfg, r, s8.0, s8.1);
    assert(all_justified(cfg, r, p, s9.0));
}

/// Whether `e` is a touch event of finger `finger`.
pub open spec fn is_touch_of(e: Event, finger: u8) -> bool {
    match e {
        Event::TouchDown(tp) => tp.finger == finger,
        Event::TouchMove(tp) => tp.finger == finger,
        Event::TouchUp { finger: f } => f == finger,
        _ => false,
    }
}

/// Each report continues a finger's touch lifecycle (down, moves, up): a
/// finger that is up gives nothing or a `TouchDown`; a finger that is down
/// gives a `TouchMove`, a `TouchUp`, or a `TouchUp` and a new `TouchDown`
/// when its contact id changed; afterwards the finger counts as down exactly
/// when its last event is not a `TouchUp` and there was one. The other
/// finger's state is untouched. This holds when the record's coordinates lie
/// in the touchpad's range; a down finger whose record reads out of range
/// is dropped without a `TouchUp`.
pub proof fn lemma_touch_lifecycle(r: Seq<u8>, finger: u8, ev: Seq<Event>, p: PrevState)
    requires
        finger < 2,
        in_touch_range(touch_point_at(r, finger)),
    ensures
        ({
            let (ev2, p2) = touch_slot_step(r, finger, ev, p);
            let out = ev2.subrange(ev.len() as int, ev2.len() as int);
            let was = if finger == 0 {
                p.touch0_active
            } else {
                p.touch1_active
            };
            let now = if finger == 0 {
                p2.touch0_active
            } else {
                p2.touch1_active
            };
            &&& ev2.subrange(0, ev.len() as int) == ev
            &&& forall|i: int| 0 <= i < out.len() ==> is_touch_of(#[trigger] out[i], finger)
            &&& !was ==> out.len() <= 1 && (out.len() == 1 ==> out[0] is TouchDown)
            &&& was ==> 1 <= out.len() <= 2 && (out[0] is TouchMove || out[0] is TouchUp) && (
            out.len() == 2 ==> out[0] is TouchUp && out[1] is TouchDown)
            &&& now <==> (out.len() > 0 && !(out[out.len() - 1] is TouchUp))
            &&& finger == 0 ==> p2.touch1_active == p.touch1_active && p2.touch1_id
                == p.touch1_id
            &&& finger == 1 ==> p2.touch0_active == p.touch0_active && p2.touch0_id
                == p.touch0_id
        }),
{
    let tp = touch_point_at(r, finger);
    let was = if finger == 0 {
        p.touch0_active
    } else {
        p.touch1_active
    };
    let prev_id = if finger == 0 {
        p.touch0_id
    } else {
        p.touch1_id
    };
    let tr = touch_transition(was, prev_id, touch_active_at(r, finger), tp);
    let (ev2, p2) = touch_slot_step(r, finger, ev, p);
    assert(ev2 == ev + tr);
    assert(ev2.subrange(ev.len() as int, ev2.len() as int) =~= tr);
    assert(ev2.subrange(0, ev.len() as int) =~= ev);
}

} // verus!
