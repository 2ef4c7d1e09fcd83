use vstd::prelude::*;

use crate::config::ConfigView;
use crate::controller::{
    accel_step, button_change, button_events, buttons_step, decode_report, dpad_step, gyro_step,
    i16_le, in_touch_range, lemma_add_contains, stick_step, touch_active_at, touch_point_at, touch_slot_step,
    touch_step, touch_transition, trigger_step, PrevState,
};
use crate::event::{Event, TouchPoint};
use crate::types::{dpad_of_hat, hat_direction, lemma_from_nibble_table, packed_bits, packed_word, Button, DPad, StickSide, TriggerSide};

verus! {

// ── which step gives which event ──────────────────────────────────

proof fn lemma_dpad_part(cfg: ConfigView, r: Seq<u8>, ev: Seq<Event>, q: PrevState, p: PrevState)
    requires
        q.dpad == p.dpad,
    ensures
        dpad_step(cfg, r, ev, q).0 == ev + dpad_step(cfg, r, seq![], p).0,
{
    assert(dpad_step(cfg, r, ev, q).0 =~= ev + dpad_step(cfg, r, seq![], p).0);
}

proof fn lemma_trigger_part(
    cfg: ConfigView,
    which: TriggerSide,
    v: u8,
    ev: Seq<Event>,
    q: PrevState,
    p: PrevState,
)
    requires
        which == TriggerSide::Left ==> q.l2 == p.l2,
        which == TriggerSide::Right ==> q.r2 == p.r2,
    ensures
        trigger_step(cfg, which, v, ev, q).0 == ev + trigger_step(cfg, which, v, seq![], p).0,
{
    assert(trigger_step(cfg, which, v, ev, q).0 =~= ev + trigger_step(cfg, which, v, seq![], p).0);
}

proof fn lemma_stick_part(
    cfg: ConfigView,
    which: StickSide,
    x: u8,
    y: u8,
    ev: Seq<Event>,
    q: PrevState,
    p: PrevState,
)
    requires
        which == StickSide::Left ==> q.lx == p.lx && q.ly == p.ly,
        which == StickSide::Right ==> q.rx == p.rx && q.ry == p.ry,
    ensures
        stick_step(cfg, which, x, y, ev, q).0 == ev + stick_step(cfg, which, x, y, seq![], p).0,
{
    assert(stick_step(cfg, which, x, y, ev, q).0 =~= ev + stick_step(cfg, which, x, y, seq![], p).0);
}

proof fn lemma_touch_part(cfg: ConfigView, r: Seq<u8>, ev: Seq<Event>, q: PrevState, p: PrevState)
    requires
        q.touch0_active == p.touch0_active,
        q.touch0_id == p.touch0_id,
        q.touch1_active == p.touch1_active,
        q.touch1_id == p.touch1_id,
    ensures
        touch_step(cfg, r, ev, q).0 == ev + touch_step(cfg, r, seq![], p).0,
{
    if cfg.report_touch && r.len() >= 40 {
        let z: Seq<Event> = seq![];
        let t0 = touch_slot_step(r, 0, ev, q);
        let u0 = touch_slot_step(r, 0, z, p);
        assert(t0.0 =~= ev + u0.0);
        assert(touch_step(cfg, r, ev, q).0 =~= ev + touch_step(cfg, r, z, p).0);
    } else {
        assert(touch_step(cfg, r, ev, q).0 =~= ev + touch_step(cfg, r, seq![], p).0);
    }
}

proof fn lemma_accel_part(cfg: ConfigView, r: Seq<u8>, ev: Seq<Event>, q: PrevState, p: PrevState)
    requires
        q.accel_x == p.accel_x,
        q.accel_y == p.accel_y,
        q.accel_z == p.accel_z,
        q.accel_init == p.accel_init,
    ensures
        accel_step(cfg, r, ev, q).0 == ev + accel_step(cfg, r, seq![], p).0,
{
    assert(accel_step(cfg, r, ev, q).0 =~= ev + accel_step(cfg, r, seq![], p).0);
}

proof fn lemma_gyro_part(cfg: ConfigView, r: Seq<u8>, ev: Seq<Event>, q: PrevState, p: PrevState)
    requires
        q.gyro_pitch == p.gyro_pitch,
        q.gyro_yaw == p.gyro_yaw,
        q.gyro_roll == p.gyro_roll,
        q.gyro_init == p.gyro_init,
    ensures
        gyro_step(cfg, r, ev, q).0 == ev + gyro_step(cfg, r, seq![], p).0,
{
    assert(gyro_step(cfg, r, ev, q).0 =~= ev + gyro_step(cfg, r, seq![], p).0);
}

/// A report's events are the events that each channel gives on its own
/// from the state before the report.
#[verifier::rlimit(80)]
#[verifier::spinoff_prover]
proof fn lemma_decode_contains(cfg: ConfigView, r: Seq<u8>, p: PrevState, e: Event)
    ensures
        decode_report(cfg, r, p).0.contains(e) <==> {
            ||| buttons_step(cfg, r, seq![], p).0.contains(e)
            ||| dpad_step(cfg, r, seq![], p).0.contains(e)
            ||| trigger_step(cfg, TriggerSide::Left, r[4], seq![], p).0.contains(e)
            ||| trigger_step(cfg, TriggerSide::Right, r[5], seq![], p).0.contains(e)
            ||| stick_step(cfg, StickSide::Left, r[0], r[1], seq![], p).0.contains(e)
            ||| stick_step(cfg, StickSide::Right, r[2], r[3], seq![], p).0.contains(e)
            ||| touch_step(cfg, r, seq![], p).0.contains(e)
            ||| accel_step(cfg, r, seq![], p).0.contains(e)
            ||| gyro_step(cfg, r, seq![], p).0.contains(e)
        },
{
    let z: Seq<Event> = seq![];
    let s1 = buttons_step(cfg, r, z, p);
    let s2 = dpad_step(cfg, r, s1.0, s1.1);
    let s3 = trigger_step(cfg, TriggerSide::Left, r[4], s2.0, s2.1);
    let s4 = trigger_step(cfg, TriggerSide::Right, r[5], s3.0, s3.1);
    let s5 = stick_step(cfg, StickSide::Left, r[0], r[1], s4.0, s4.1);
    let s6 = stick_step(cfg, StickSide::Right, r[2], r[3], s5.0, s5.1);
    let s7 = touch_step(cfg, r, s6.0, s6.1);
    let s8 = accel_step(cfg, r, s7.0, s7.1);
    lemma_dpad_part(cfg, r, s1.0, s1.1, p);
    lemma_trigger_part(cfg, TriggerSide::Left, r[4], s2.0, s2.1, p);
    lemma_trigger_part(cfg, TriggerSide::Right, r[5], s3.0, s3.1, p);
    lemma_stick_part(cfg, StickSide::Left, r[0], r[1], s4.0, s4.1, p);
    lemma_stick_part(cfg, StickSide::Right, r[2], r[3], s5.0, s5.1, p);
    lemma_touch_part(cfg, r, s6.0, s6.1, p);
    lemma_accel_part(cfg, r, s7.0, s7.1, p);
    lemma_gyro_part(cfg, r, s8.0, s8.1, p);
    lemma_add_contains(s1.0, dpad_step(cfg, r, z, p).0, e);
    lemma_add_contains(s2.0, trigger_step(cfg, TriggerSide::Left, r[4], z, p).0, e);
    lemma_add_contains(s3.0, trigger_step(cfg, TriggerSide::Right, r[5], z, p).0, e);
    lemma_add_contains(s4.0, stick_step(cfg, StickSide::Left, r[0], r[1], z, p).0, e);
    lemma_add_contains(s5.0, stick_step(cfg, StickSide::Right, r[2], r[3], z, p).0, e);
    lemma_add_contains(s6.0, touch_step(cfg, r, z, p).0, e);
    lemma_add_contains(s7.0, accel_step(cfg, r, z, p).0, e);
    lemma_add_contains(s8.0, gyro_step(cfg, r, z, p).0, e);
}

proof fn lemma_single(x: Event, e: Event)
    ensures
        seq![x].contains(e) <==> e == x,
{
    if e == x {
        assert(seq![x][0] == x);
    }
}

/// What kind of event each channel can give.
proof fn lemma_step_kinds(cfg: ConfigView, r: Seq<u8>, p: PrevState, e: Event)
    ensures
        buttons_step(cfg, r, seq![], p).0.contains(e) ==> ((e is ButtonPress) || (e is ButtonRelease)),
        dpad_step(cfg, r, seq![], p).0.contains(e) ==> (e is DPadChanged),
        trigger_step(cfg, TriggerSide::Left, r[4], seq![], p).0.contains(e) ==> e
            == (Event::Trigger { which: TriggerSide::Left, value: r[4] }),
        trigger_step(cfg, TriggerSide::Right, r[5], seq![], p).0.contains(e) ==> e
            == (Event::Trigger { which: TriggerSide::Right, value: r[5] }),
        stick_step(cfg, StickSide::Left, r[0], r[1], seq![], p).0.contains(e) ==> e
            == (Event::StickMove { which: StickSide::Left, x: r[0], y: r[1] }),
        stick_step(cfg, StickSide::Right, r[2], r[3], seq![], p).0.contains(e) ==> e
            == (Event::StickMove { which: StickSide::Right, x: r[2], y: r[3] }),
        touch_step(cfg, r, seq![], p).0.contains(e) ==> ((e is TouchDown) || (e is TouchMove)
            || (e is TouchUp)),
        accel_step(cfg, r, seq![], p).0.contains(e) ==> e == (Event::Accelerometer {
            x: i16_le(r[21], r[22]),
            y: i16_le(r[23], r[24]),
            z: i16_le(r[25], r[26]),
        }),
        gyro_step(cfg, r, seq![], p).0.contains(e) ==> e == (Event::Gyroscope {
            pitch: i16_le(r[15], r[16]),
            yaw: i16_le(r[17], r[18]),
            roll: i16_le(r[19], r[20]),
        }),
{
    let z: Seq<Event> = seq![];
    let new = packed_word(r[7], r[8], r[9]);
    if buttons_step(cfg, r, z, p).0.contains(e) {
        let f = |bit: u32| button_change(new, p.buttons, cfg.excluded_buttons, bit);
        assert(buttons_step(cfg, r, z, p).0 =~= button_events(new, p.buttons, cfg.excluded_buttons));
        packed_bits().lemma_filter_map_contains(f, e);
        let bit = choose|t: u32| #[trigger] packed_bits().contains(t) && f(t) == Some(e);
        assert(f(bit) == Some(e));
    }
    let d = dpad_step(cfg, r, z, p).0;
    if d.contains(e) {
        assert(d =~= seq![Event::DPadChanged(crate::types::dpad_of_hat((r[7] % 16) as u8))]);
        lemma_single(d[0], e);
    }
    let t = trigger_step(cfg, TriggerSide::Left, r[4], z, p).0;
    if t.contains(e) {
        assert(t =~= seq![Event::Trigger { which: TriggerSide::Left, value: r[4] }]);
        lemma_single(t[0], e);
    }
    let t = trigger_step(cfg, TriggerSide::Right, r[5], z, p).0;
    if t.contains(e) {
        assert(t =~= seq![Event::Trigger { which: TriggerSide::Right, value: r[5] }]);
        lemma_single(t[0], e);
    }
    let s = stick_step(cfg, StickSide::Left, r[0], r[1], z, p).0;
    if s.contains(e) {
        assert(s =~= seq![Event::StickMove { which: StickSide::Left, x: r[0], y: r[1] }]);
        lemma_single(s[0], e);
    }
    let s = stick_step(cfg, StickSide::Right, r[2], r[3], z, p).0;
    if s.contains(e) {
        assert(s =~= seq![Event::StickMove { which: StickSide::Right, x: r[2], y: r[3] }]);
        lemma_single(s[0], e);
    }
    let tt = touch_step(cfg, r, z, p).0;
    if tt.contains(e) {
        let i = choose|i: int| 0 <= i < tt.len() && tt[i] == e;
        assert(tt[i] is TouchDown || tt[i] is TouchMove || tt[i] is TouchUp);
    }
    let a = accel_step(cfg, r, z, p).0;
    if a.contains(e) {
        lemma_single(a[0], e);
        assert(a =~= seq![a[0]]);
    }
    let g = gyro_step(cfg, r, z, p).0;
    if g.contains(e) {
        lemma_single(g[0], e);
        assert(g =~= seq![g[0]]);
    }
}

// ── laws on the analog channels ───────────────────────────────────

/// `a` and `b` are more than `t` apart.
pub open spec fn apart(a: int, b: int, t: int) -> bool {
    a - b > t || b - a > t
}

/// `v` lies at most `d` away from `c`.
pub open spec fn near(v: int, c: int, d: int) -> bool {
    c - d <= v && v <= c + d
}

/// A report gives the event `e` exactly when it gives it from the state
/// before the report (a characterization for the laws below).
proof fn lemma_event_origin(cfg: ConfigView, r: Seq<u8>, p: PrevState, e: Event)
    ensures
        decode_report(cfg, r, p).0.contains(e) <==> {
            ||| buttons_step(cfg, r, seq![], p).0.contains(e)
            ||| dpad_step(cfg, r, seq![], p).0.contains(e)
            ||| trigger_step(cfg, TriggerSide::Left, r[4], seq![], p).0.contains(e)
            ||| trigger_step(cfg, TriggerSide::Right, r[5], seq![], p).0.contains(e)
            ||| stick_step(cfg, StickSide::Left, r[0], r[1], seq![], p).0.contains(e)
            ||| stick_step(cfg, StickSide::Right, r[2], r[3], seq![], p).0.contains(e)
            ||| touch_step(cfg, r, seq![], p).0.contains(e)
            ||| accel_step(cfg, r, seq![], p).0.contains(e)
            ||| gyro_step(cfg, r, seq![], p).0.contains(e)
        },
        buttons_step(cfg, r, seq![], p).0.contains(e) ==> ((e is ButtonPress) || (e is ButtonRelease)),
        dpad_step(cfg, r, seq![], p).0.contains(e) ==> (e is DPadChanged),
        trigger_step(cfg, TriggerSide::Left, r[4], seq![], p).0.contains(e) ==> e
            == (Event::Trigger { which: TriggerSide::Left, value: r[4] }),
        trigger_step(cfg, TriggerSide::Right, r[5], seq![], p).0.contains(e) ==> e
            == (Event::Trigger { which: TriggerSide::Right, value: r[5] }),
        stick_step(cfg, StickSide::Left, r[0], r[1], seq![], p).0.contains(e) ==> e
            == (Event::StickMove { which: StickSide::Left, x: r[0], y: r[1] }),
        stick_step(cfg, StickSide::Right, r[2], r[3], seq![], p).0.contains(e) ==> e
            == (Event::StickMove { which: StickSide::Right, x: r[2], y: r[3] }),
        touch_step(cfg, r, seq![], p).0.contains(e) ==> ((e is TouchDown) || (e is TouchMove)
            || (e is TouchUp)),
        accel_step(cfg, r, seq![], p).0.contains(e) ==> e == (Event::Accelerometer {
            x: i16_le(r[21], r[22]),
            y: i16_le(r[23], r[24]),
            z: i16_le(r[25], r[26]),
        }),
        gyro_step(cfg, r, seq![], p).0.contains(e) ==> e == (Event::Gyroscope {
            pitch: i16_le(r[15], r[16]),
            yaw: i16_le(r[17], r[18]),
            roll: i16_le(r[19], r[20]),
        }),
{
    lemma_decode_contains(cfg, r, p, e);
    lemma_step_kinds(cfg, r, p, e);
}

/// The position a stick move of stick `which` carries.
pub open spec fn stick_position(e: Event, which: StickSide) -> Option<(u8, u8)> {
    match e {
        Event::StickMove { which: w, x, y } => if w == which {
            Some((x, y))
        } else {
            None
        },
        _ => None,
    }
}

/// A stick move is reported exactly when the stick is not excluded, one of
/// its axes moved by more than the stick threshold from the last reported
/// position, and the new and the last reported position do not both lie in
/// the dead-zone around 128; the event carries the report's position.
pub proof fn lemma_stick_events_exact(cfg: ConfigView, r: Seq<u8>, p: PrevState)
    ensures
        decode_report(cfg, r, p).0.contains((Event::StickMove { which: StickSide::Left, x: r[0], y: r[1] }))
            <==> ({
            let t = cfg.stick_threshold as int;
            let dz = cfg.stick_deadzone as int;
            &&& !cfg.excluded_sticks.contains(StickSide::Left)
            &&& apart(r[0] as int, p.lx as int, t) || apart(r[1] as int, p.ly as int, t)
            &&& !(near(r[0] as int, 128, dz) && near(r[1] as int, 128, dz) && near(p.lx as int, 128, dz)
                && near(p.ly as int, 128, dz))
        }),
        decode_report(cfg, r, p).0.contains((Event::StickMove { which: StickSide::Right, x: r[2], y: r[3] }))
            <==> ({
            let t = cfg.stick_threshold as int;
            let dz = cfg.stick_deadzone as int;
            &&& !cfg.excluded_sticks.contains(StickSide::Right)
            &&& apart(r[2] as int, p.rx as int, t) || apart(r[3] as int, p.ry as int, t)
            &&& !(near(r[2] as int, 128, dz) && near(r[3] as int, 128, dz) && near(p.rx as int, 128, dz)
                && near(p.ry as int, 128, dz))
        }),
        forall|e: Event| #[trigger] decode_report(cfg, r, p).0.contains(e) && stick_position(
            e,
            StickSide::Left,
        ) is Some ==> stick_position(e, StickSide::Left) == Some((r[0], r[1])),
        forall|e: Event| #[trigger] decode_report(cfg, r, p).0.contains(e) && stick_position(
            e,
            StickSide::Right,
        ) is Some ==> stick_position(e, StickSide::Right) == Some((r[2], r[3])),
{
    lemma_event_origin(cfg, r, p, Event::StickMove { which: StickSide::Left, x: r[0], y: r[1] });
    lemma_event_origin(cfg, r, p, Event::StickMove { which: StickSide::Right, x: r[2], y: r[3] });
    let z: Seq<Event> = seq![];
    let sl = stick_step(cfg, StickSide::Left, r[0], r[1], z, p).0;
    let sr = stick_step(cfg, StickSide::Right, r[2], r[3], z, p).0;
    assert(sl.len() > 0 ==> sl[0] == Event::StickMove { which: StickSide::Left, x: r[0], y: r[1] });
    assert(sr.len() > 0 ==> sr[0] == Event::StickMove { which: StickSide::Right, x: r[2], y: r[3] });
    assert forall|e: Event| #[trigger] decode_report(cfg, r, p).0.contains(e) implies (stick_position(
        e,
        StickSide::Left,
    ) is Some ==> stick_position(e, StickSide::Left) == Some((r[0], r[1]))) && (stick_position(
        e,
        StickSide::Right,
    ) is Some ==> stick_position(e, StickSide::Right) == Some((r[2], r[3]))) by {
        lemma_event_origin(cfg, r, p, e);
    }
}

/// The value a trigger event of trigger `which` carries.
pub open spec fn trigger_value(e: Event, which: TriggerSide) -> Option<u8> {
    match e {
        Event::Trigger { which: w, value } => if w == which {
            Some(value)
        } else {
            None
        },
        _ => None,
    }
}

/// A trigger is reported exactly when it is not excluded and its value
/// moved, up or down, by more than the trigger threshold from the last
/// reported value; the event carries the report's value.
pub proof fn lemma_trigger_events_exact(cfg: ConfigView, r: Seq<u8>, p: PrevState)
    ensures
        decode_report(cfg, r, p).0.contains((Event::Trigger { which: TriggerSide::Left, value: r[4] }))
            <==> (!cfg.excluded_triggers.contains(TriggerSide::Left) && apart(
            r[4] as int,
            p.l2 as int,
            cfg.trigger_threshold as int,
        )),
        decode_report(cfg, r, p).0.contains((Event::Trigger { which: TriggerSide::Right, value: r[5] }))
            <==> (!cfg.excluded_triggers.contains(TriggerSide::Right) && apart(
            r[5] as int,
            p.r2 as int,
            cfg.trigger_threshold as int,
        )),
        forall|e: Event| #[trigger] decode_report(cfg, r, p).0.contains(e) && trigger_value(
            e,
            TriggerSide::Left,
        ) is Some ==> trigger_value(e, TriggerSide::Left) == Some(r[4]),
        forall|e: Event| #[trigger] decode_report(cfg, r, p).0.contains(e) && trigger_value(
            e,
            TriggerSide::Right,
        ) is Some ==> trigger_value(e, TriggerSide::Right) == Some(r[5]),
{
    lemma_event_origin(cfg, r, p, Event::Trigger { which: TriggerSide::Left, value: r[4] });
    lemma_event_origin(cfg, r, p, Event::Trigger { which: TriggerSide::Right, value: r[5] });
    let z: Seq<Event> = seq![];
    let tl = trigger_step(cfg, TriggerSide::Left, r[4], z, p).0;
    let tr = trigger_step(cfg, TriggerSide::Right, r[5], z, p).0;
    assert(tl.len() > 0 ==> tl[0] == Event::Trigger { which: TriggerSide::Left, value: r[4] });
    assert(tr.len() > 0 ==> tr[0] == Event::Trigger { which: TriggerSide::Right, value: r[5] });
    assert forall|e: Event| #[trigger] decode_report(cfg, r, p).0.contains(e) implies (trigger_value(
        e,
        TriggerSide::Left,
    ) is Some ==> trigger_value(e, TriggerSide::Left) == Some(r[4])) && (trigger_value(
        e,
        TriggerSide::Right,
    ) is Some ==> trigger_value(e, TriggerSide::Right) == Some(r[5])) by {
        lemma_event_origin(cfg, r, p, e);
    }
}

/// An accelerometer reading is reported exactly when accelerometer
/// reporting is on, the report holds the accelerometer bytes, an earlier
/// reading was recorded, and any one axis moved by more than the accelerometer
/// threshold; the event carries the report's reading, and every report
/// holding the bytes is recorded as the new reading.
pub proof fn lemma_accel_events_exact(cfg: ConfigView, r: Seq<u8>, p: PrevState)
    ensures
        ({
            let (ax, ay, az) = (i16_le(r[21], r[22]), i16_le(r[23], r[24]), i16_le(r[25], r[26]));
            let t = cfg.accel_threshold as int;
            &&& decode_report(cfg, r, p).0.contains((Event::Accelerometer { x: ax, y: ay, z: az }))
                <==> (cfg.report_accel && r.len() >= 27 && p.accel_init && (apart(
                ax as int,
                p.accel_x as int,
                t,
            ) || apart(ay as int, p.accel_y as int, t) || apart(az as int, p.accel_z as int, t)))
            &&& forall|e: Event| #[trigger] decode_report(cfg, r, p).0.contains(e) && (e is Accelerometer)
                ==> e == (Event::Accelerometer { x: ax, y: ay, z: az })
            &&& cfg.report_accel && r.len() >= 27 ==> {
                let q = decode_report(cfg, r, p).1;
                q.accel_init && q.accel_x == ax && q.accel_y == ay && q.accel_z == az
            }
        }),
{
    let ev = Event::Accelerometer {
        x: i16_le(r[21], r[22]),
        y: i16_le(r[23], r[24]),
        z: i16_le(r[25], r[26]),
    };
    lemma_event_origin(cfg, r, p, ev);
    let a = accel_step(cfg, r, seq![], p).0;
    assert(a.len() > 0 ==> a[0] == ev);
    assert forall|e: Event| #[trigger] decode_report(cfg, r, p).0.contains(e) && (e is Accelerometer)
        implies e == ev by {
        lemma_event_origin(cfg, r, p, e);
    }
}

/// A gyroscope reading is reported exactly when gyroscope reporting is on,
/// the report holds the gyroscope bytes, an earlier reading was recorded,
/// and any one axis (pitch, yaw or roll) moved by more than the gyroscope
/// threshold; the event carries the report's reading, and every report
/// holding the bytes is recorded as the new reading.
pub proof fn lemma_gyro_events_exact(cfg: ConfigView, r: Seq<u8>, p: PrevState)
    ensures
        ({
            let (gp, gy, gr) = (i16_le(r[15], r[16]), i16_le(r[17], r[18]), i16_le(r[19], r[20]));
            let t = cfg.gyro_threshold as int;
            &&& decode_report(cfg, r, p).0.contains((Event::Gyroscope { pitch: gp, yaw: gy, roll: gr }))
                <==> (cfg.report_gyro && r.len() >= 21 && p.gyro_init && (apart(
                gp as int,
                p.gyro_pitch as int,
                t,
            ) || apart(gy as int, p.gyro_yaw as int, t) || apart(gr as int, p.gyro_roll as int, t)))
            &&& forall|e: Event| #[trigger] decode_report(cfg, r, p).0.contains(e) && (e is Gyroscope)
                ==> e == (Event::Gyroscope { pitch: gp, yaw: gy, roll: gr })
            &&& cfg.report_gyro && r.len() >= 21 ==> {
                let q = decode_report(cfg, r, p).1;
                q.gyro_init && q.gyro_pitch == gp && q.gyro_yaw == gy && q.gyro_roll == gr
            }
        }),
{
    let ev = Event::Gyroscope {
        pitch: i16_le(r[15], r[16]),
        yaw: i16_le(r[17], r[18]),
        roll: i16_le(r[19], r[20]),
    };
    lemma_event_origin(cfg, r, p, ev);
    let g = gyro_step(cfg, r, seq![], p).0;
    assert(g.len() > 0 ==> g[0] == ev);
    assert forall|e: Event| #[trigger] decode_report(cfg, r, p).0.contains(e) && (e is Gyroscope)
        implies e == ev by {
        lemma_event_origin(cfg, r, p, e);
    }
}

/// A D-pad change is reported exactly when the D-pad is not excluded and
/// the hat value (low nibble of the first button byte) differs from the
/// last reported one; the event carries the direction of the clockwise
/// table.
pub proof fn lemma_dpad_events_exact(cfg: ConfigView, r: Seq<u8>, p: PrevState, d: DPad)
    ensures
        decode_report(cfg, r, p).0.contains(Event::DPadChanged(d)) <==> (r[7] as int % 16
            != p.dpad && !cfg.excluded_buttons.contains(Button::DPadUp) && d == hat_direction(
            r[7] as int % 16,
        )),
{
    lemma_event_origin(cfg, r, p, Event::DPadChanged(d));
    lemma_from_nibble_table(r[7]);
    let dd = dpad_step(cfg, r, seq![], p).0;
    assert(dd.len() > 0 ==> dd[0] == Event::DPadChanged(dpad_of_hat((r[7] % 16) as u8)));
    if dd.contains(Event::DPadChanged(d)) {
        let i = choose|i: int| 0 <= i < dd.len() && dd[i] == Event::DPadChanged(d);
        assert(dd =~= seq![dd[0]]);
    }
}

// ── laws on the touchpad ──────────────────────────────────────────

/// The contact that a touch-down or touch-move event of finger `finger`
/// carries.
pub open spec fn touch_contact(e: Event, finger: u8) -> Option<TouchPoint> {
    match e {
        Event::TouchDown(tp) => if tp.finger == finger {
            Some(tp)
        } else {
            None
        },
        Event::TouchMove(tp) => if tp.finger == finger {
            Some(tp)
        } else {
            None
        },
        _ => None,
    }
}

proof fn lemma_transition_contains(
    was: bool,
    prev_id: u8,
    active: bool,
    tp: TouchPoint,
    e: Event,
)
    ensures
        touch_transition(was, prev_id, active, tp).contains(e) <==> match e {
            Event::TouchDown(t) => t == tp && active && in_touch_range(tp) && !(was
                && tp.contact_id == prev_id),
            Event::TouchMove(t) => t == tp && active && in_touch_range(tp) && was && tp.contact_id
                == prev_id,
            Event::TouchUp { finger } => finger == tp.finger && was && in_touch_range(tp) && (!active
                || tp.contact_id != prev_id),
            _ => false,
        },
{
    let tr = touch_transition(was, prev_id, active, tp);
    if tr.contains(e) {
        let i = choose|i: int| 0 <= i < tr.len() && tr[i] == e;
        assert(tr[i] == e);
    }
    let down = Event::TouchDown(tp);
    let up = Event::TouchUp { finger: tp.finger };
    if tr.len() == 1 {
        assert(tr[0] == tr[0]);
    }
    if tr.len() == 2 {
        assert(tr[0] == up && tr[1] == down);
        if e == down {
            assert(tr[1] == e);
        }
        if e == up {
            assert(tr[0] == e);
        }
    }
}

/// Touch records are reported from the raw bytes: for finger `f`, the 4-byte
/// record at `32 + 4 f` has the contact id in the low 7 bits of its first
/// byte, bit 7 set when the finger is lifted, a 12-bit X from the second
/// byte and the low nibble of the third, and a 12-bit Y from the high nibble
/// of the third byte and the fourth. While touch reporting is on and the
/// report holds both records, a finger gives `TouchDown` when it is on the
/// pad in range and was not already down with the same contact, `TouchMove`
/// when it is on the pad in range and was down with the same contact, and
/// `TouchUp` when it was down, its record is in range, and it is lifted or
/// shows a new contact. With touch reporting off, or a shorter report, there
/// are no touch events.
pub proof fn lemma_touch_events_from_bytes(cfg: ConfigView, r: Seq<u8>, p: PrevState, f: u8)
    requires
        f < 2,
    ensures
        ({
            let base = 32 + 4 * f;
            let id = r[base] as int % 128;
            let active = r[base] < 128;
            let x = r[base + 1] + 256 * (r[base + 2] as int % 16);
            let y = r[base + 2] as int / 16 + 16 * r[base + 3];
            let tp = TouchPoint { finger: f, x: x as u16, y: y as u16, contact_id: id as u8 };
            let in_range = x < 1920 && y < 1088;
            let was = if f == 0 {
                p.touch0_active
            } else {
                p.touch1_active
            };
            let prev_id = if f == 0 {
                p.touch0_id
            } else {
                p.touch1_id
            };
            let on = cfg.report_touch && r.len() >= 40;
            let evs = decode_report(cfg, r, p).0;
            &&& evs.contains(Event::TouchDown(tp)) <==> (on && active && in_range && !(was && id
                == prev_id))
            &&& evs.contains(Event::TouchMove(tp)) <==> (on && active && in_range && was && id
                == prev_id)
            &&& evs.contains((Event::TouchUp { finger: f })) <==> (on && was && in_range && (!active
                || id != prev_id))
            &&& forall|e: Event| #[trigger] evs.contains(e) && touch_contact(e, f) is Some
                ==> touch_contact(e, f) == Some(tp)
            &&& !on ==> forall|e: Event| #[trigger] evs.contains(e) ==> !((e is TouchDown) || (
            e is TouchMove) || (e is TouchUp))
        }),
{
    let z: Seq<Event> = seq![];
    let tp0 = touch_point_at(r, 0);
    let tp1 = touch_point_at(r, 1);
    let tr0 = touch_transition(p.touch0_active, p.touch0_id, touch_active_at(r, 0), tp0);
    let tr1 = touch_transition(p.touch1_active, p.touch1_id, touch_active_at(r, 1), tp1);
    let on = cfg.report_touch && r.len() >= 40;
    if on {
        let t0 = touch_slot_step(r, 0, z, p);
        assert(touch_step(cfg, r, z, p).0 =~= tr0 + tr1);
    } else {
        assert(touch_step(cfg, r, z, p).0 =~= z);
    }
    let tpf = touch_point_at(r, f);
    let evs = decode_report(cfg, r, p).0;
    assert forall|e: Event| (e is TouchDown) || (e is TouchMove) || (e is TouchUp) implies (
    evs.contains(e) <==> (on && (tr0.contains(e) || tr1.contains(e)))) by {
        lemma_event_origin(cfg, r, p, e);
        lemma_add_contains(tr0, tr1, e);
    }
    assert forall|e: Event| #[trigger] evs.contains(e) && touch_contact(e, f) is Some implies touch_contact(
        e,
        f,
    ) == Some(tpf) by {
        lemma_event_origin(cfg, r, p, e);
        lemma_add_contains(tr0, tr1, e);
        lemma_transition_contains(p.touch0_active, p.touch0_id, touch_active_at(r, 0), tp0, e);
        lemma_transition_contains(p.touch1_active, p.touch1_id, touch_active_at(r, 1), tp1, e);
    }
    let down = Event::TouchDown(tpf);
    let mv = Event::TouchMove(tpf);
    let up = Event::TouchUp { finger: f };
    lemma_add_contains(tr0, tr1, down);
    lemma_add_contains(tr0, tr1, mv);
    lemma_add_contains(tr0, tr1, up);
    lemma_transition_contains(p.touch0_active, p.touch0_id, touch_active_at(r, 0), tp0, down);
    lemma_transition_contains(p.touch1_active, p.touch1_id, touch_active_at(r, 1), tp1, down);
    lemma_transition_contains(p.touch0_active, p.touch0_id, touch_active_at(r, 0), tp0, mv);
    lemma_transition_contains(p.touch1_active, p.touch1_id, touch_active_at(r, 1), tp1, mv);
    lemma_transition_contains(p.touch0_active, p.touch0_id, touch_active_at(r, 0), tp0, up);
    lemma_transition_contains(p.touch1_active, p.touch1_id, touch_active_at(r, 1), tp1, up);
}

/// Motion readings are little-endian two's-complement 16-bit values: the
/// low byte first, and a high byte of 128 or more makes the value negative.
pub proof fn lemma_i16_le_value(lo: u8, hi: u8)
    ensures
        i16_le(lo, hi) as int == lo as int + 256 * (hi as int) - (if hi >= 128 {
            65536int
        } else {
            0int
        }),
{
}

} // verus!
