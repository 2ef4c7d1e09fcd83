use vstd::prelude::*;

use crate::types::{Button, StickSide, TriggerSide};

verus! {

/// The abstract content of a [`Config`]: its thresholds, its exclusion
/// sets and its reporting switches.
pub ghost struct ConfigView {
    pub stick_deadzone: u8,
    pub stick_threshold: u8,
    pub gyro_threshold: u16,
    pub accel_threshold: u16,
    pub trigger_threshold: u8,
    pub excluded_buttons: Set<Button>,
    pub excluded_triggers: Set<TriggerSide>,
    pub excluded_sticks: Set<StickSide>,
    pub report_touch: bool,
    pub report_gyro: bool,
    pub report_accel: bool,
}

/// The configuration that [`Config::default`] produces.
pub open spec fn default_config() -> ConfigView {
    ConfigView {
        stick_deadzone: 30,
        stick_threshold: 5,
        gyro_threshold: 120,
        accel_threshold: 250,
        trigger_threshold: 5,
        excluded_buttons: Set::empty(),
        excluded_triggers: Set::empty(),
        excluded_sticks: Set::empty(),
        report_touch: true,
        report_gyro: true,
        report_accel: true,
    }
}

/// The position of a button in the exclusion mask.
pub open spec fn button_slot(b: Button) -> u32 {
    match b {
        Button::Cross => 0,
        Button::Circle => 1,
        Button::Square => 2,
        Button::Triangle => 3,
        Button::DPadUp => 4,
        Button::DPadDown => 5,
        Button::DPadLeft => 6,
        Button::DPadRight => 7,
        Button::L1 => 8,
        Button::R1 => 9,
        Button::L2Digital => 10,
        Button::R2Digital => 11,
        Button::L3 => 12,
        Button::R3 => 13,
        Button::Create => 14,
        Button::Options => 15,
        Button::PS => 16,
        Button::Touchpad => 17,
        Button::Mute => 18,
    }
}

fn slot_of(b: Button) -> (s: u32)
    ensures
        s == button_slot(b),
        s < 19,
{
    match b {
        Button::Cross => 0,
        Button::Circle => 1,
        Button::Square => 2,
        Button::Triangle => 3,
        Button::DPadUp => 4,
        Button::DPadDown => 5,
        Button::DPadLeft => 6,
        Button::DPadRight => 7,
        Button::L1 => 8,
        Button::R1 => 9,
        Button::L2Digital => 10,
        Button::R2Digital => 11,
        Button::L3 => 12,
        Button::R3 => 13,
        Button::Create => 14,
        Button::Options => 15,
        Button::PS => 16,
        Button::Touchpad => 17,
        Button::Mute => 18,
    }
}

proof fn lemma_mask_insert(mask: u32, i: u32, j: u32)
    requires
        i < 32,
        j < 32,
    ensures
        ((mask | (1u32 << i)) & (1u32 << j) != 0) <==> (mask & (1u32 << j) != 0 || i == j),
{
    assert(((mask | (1u32 << i)) & (1u32 << j) != 0) <==> (mask & (1u32 << j) != 0 || i == j))
        by (bit_vector)
        requires
            i < 32,
            j < 32,
    ;
}

proof fn lemma_empty_mask(j: u32)
    requires
        j < 32,
    ensures
        0u32 & (1u32 << j) == 0,
{
    assert(0u32 & (1u32 << j) == 0) by (bit_vector);
}

/// Runtime configuration — thresholds, dead-zones, and exclusion filters.
///
/// Build one via [`Config::builder()`].
pub struct Config {
    stick_deadzone: u8,
    stick_threshold: u8,
    gyro_threshold: u16,
    accel_threshold: u16,
    trigger_threshold: u8,
    excluded_buttons: u32,
    exclude_left_trigger: bool,
    exclude_right_trigger: bool,
    exclude_left_stick: bool,
    exclude_right_stick: bool,
    report_touch: bool,
    report_gyro: bool,
    report_accel: bool,
}

impl View for Config {
    type V = ConfigView;

    closed spec fn view(&self) -> ConfigView {
        ConfigView {
            stick_deadzone: self.stick_deadzone,
            stick_threshold: self.stick_threshold,
            gyro_threshold: self.gyro_threshold,
            accel_threshold: self.accel_threshold,
            trigger_threshold: self.trigger_threshold,
            excluded_buttons: Set::new(
                |b: Button| self.excluded_buttons & (1u32 << button_slot(b)) != 0,
            ),
            excluded_triggers: Set::new(
                |t: TriggerSide|
                    match t {
                        TriggerSide::Left => self.exclude_left_trigger,
                        TriggerSide::Right => self.exclude_right_trigger,
                    },
            ),
            excluded_sticks: Set::new(
                |s: StickSide|
                    match s {
                        StickSide::Left => self.exclude_left_stick,
                        StickSide::Right => self.exclude_right_stick,
                    },
            ),
            report_touch: self.report_touch,
            report_gyro: self.report_gyro,
            report_accel: self.report_accel,
        }
    }
}

impl Config {
    /// The stick dead-zone never exceeds 127.
    #[verifier::type_invariant]
    spec fn deadzone_in_range(self) -> bool {
        self.stick_deadzone <= 127
    }
}

impl Default for Config {
    fn default() -> (c: Self)
        ensures
            c@ == default_config(),
    {
        let c = Self {
            stick_deadzone: 30,
            stick_threshold: 5,
            gyro_threshold: 120,
            accel_threshold: 250,
            trigger_threshold: 5,
            excluded_buttons: 0,
            exclude_left_trigger: false,
            exclude_right_trigger: false,
            exclude_left_stick: false,
            exclude_right_stick: false,
            report_touch: true,
            report_gyro: true,
            report_accel: true,
        };
        proof {
            assert forall|b: Button| !c@.excluded_buttons.contains(b) by {
                lemma_empty_mask(button_slot(b));
            }
            assert(c@.excluded_buttons =~= Set::<Button>::empty());
            assert(c@.excluded_triggers =~= Set::<TriggerSide>::empty());
            assert(c@.excluded_sticks =~= Set::<StickSide>::empty());
        }
        c
    }
}

impl Config {
    /// Start building a configuration.
    pub fn builder() -> (b: ConfigBuilder)
        ensures
            b@ == default_config(),
    {
        ConfigBuilder::default()
    }

    /// Returns `true` if this button is **not** excluded.
    pub fn accepts_button(&self, b: &Button) -> (r: bool)
        ensures
            r == !self@.excluded_buttons.contains(*b),
    {
        self.excluded_buttons & (1u32 << slot_of(*b)) == 0
    }

    pub(crate) fn stick_deadzone(&self) -> (r: u8)
        ensures
            r == self@.stick_deadzone,
            r <= 127,
    {
        proof {
            use_type_invariant(self);
        }
        self.stick_deadzone
    }

    pub(crate) fn stick_threshold(&self) -> (r: u8)
        ensures
            r == self@.stick_threshold,
    {
        self.stick_threshold
    }

    pub(crate) fn gyro_threshold(&self) -> (r: u16)
        ensures
            r == self@.gyro_threshold,
    {
        self.gyro_threshold
    }

    pub(crate) fn accel_threshold(&self) -> (r: u16)
        ensures
            r == self@.accel_threshold,
    {
        self.accel_threshold
    }

    pub(crate) fn trigger_threshold(&self) -> (r: u8)
        ensures
            r == self@.trigger_threshold,
    {
        self.trigger_threshold
    }

    pub(crate) fn excludes_trigger(&self, t: TriggerSide) -> (r: bool)
        ensures
            r == self@.excluded_triggers.contains(t),
    {
        match t {
            TriggerSide::Left => self.exclude_left_trigger,
            TriggerSide::Right => self.exclude_right_trigger,
        }
    }

    pub(crate) fn excludes_stick(&self, s: StickSide) -> (r: bool)
        ensures
            r == self@.excluded_sticks.contains(s),
    {
        match s {
            StickSide::Left => self.exclude_left_stick,
            StickSide::Right => self.exclude_right_stick,
        }
    }

    pub(crate) fn report_touch(&self) -> (r: bool)
        ensures
            r == self@.report_touch,
    {
        self.report_touch
    }

    pub(crate) fn report_gyro(&self) -> (r: bool)
        ensures
            r == self@.report_gyro,
    {
        self.report_gyro
    }

    pub(crate) fn report_accel(&self) -> (r: bool)
        ensures
            r == self@.report_accel,
    {
        self.report_accel
    }
}


// ── builder ───────────────────────────────────────────────────────

/// Builder for a [`Config`]; it starts from the defaults.
pub struct ConfigBuilder {
    c: Config,
}

impl View for ConfigBuilder {
    type V = ConfigView;

    closed spec fn view(&self) -> ConfigView {
        self.c@
    }
}

impl Default for ConfigBuilder {
    fn default() -> (b: Self)
        ensures
            b@ == default_config(),
    {
        ConfigBuilder { c: Config::default() }
    }
}

impl ConfigBuilder {
    /// Stick distance from 128 to be considered "at rest".  Default **30**, max 127.
    pub fn stick_deadzone(self, v: u8) -> (b: Self)
        ensures
            b@ == (ConfigView { stick_deadzone: if v <= 127 { v } else { 127 }, ..self@ }),
            b@.stick_deadzone <= 127,
    {
        let mut this = self;
        this.c.stick_deadzone = if v <= 127 {
            v
        } else {
            127
        };
        this
    }

    /// Minimum stick position change (per axis) to emit an event.  Default **5**.
    pub fn stick_threshold(self, v: u8) -> (b: Self)
        ensures
            b@ == (ConfigView { stick_threshold: v, ..self@ }),
    {
        let mut this = self;
        proof {
            use_type_invariant(&this.c);
        }
        this.c.stick_threshold = v;
        this
    }

    /// Per-axis gyro change that must be exceeded to emit.  Default **120**.
    pub fn gyro_threshold(self, v: u16) -> (b: Self)
        ensures
            b@ == (ConfigView { gyro_threshold: v, ..self@ }),
    {
        let mut this = self;
        proof {
            use_type_invariant(&this.c);
        }
        this.c.gyro_threshold = v;
        this
    }

    /// Per-axis accel change threshold.  Default **250**.
    pub fn accel_threshold(self, v: u16) -> (b: Self)
        ensures
            b@ == (ConfigView { accel_threshold: v, ..self@ }),
    {
        let mut this = self;
        proof {
            use_type_invariant(&this.c);
        }
        this.c.accel_threshold = v;
        this
    }

    /// Analog trigger change threshold.  Default **5**.
    pub fn trigger_threshold(self, v: u8) -> (b: Self)
        ensures
            b@ == (ConfigView { trigger_threshold: v, ..self@ }),
    {
        let mut this = self;
        proof {
            use_type_invariant(&this.c);
        }
        this.c.trigger_threshold = v;
        this
    }

    /// Exclude a single button from reporting.
    pub fn exclude_button(self, b: Button) -> (r: Self)
        ensures
            r@ == (ConfigView { excluded_buttons: self@.excluded_buttons.insert(b), ..self@ }),
    {
        let mut this = self;
        proof {
            use_type_invariant(&this.c);
        }
        let ghost old_view = this@;
        let slot = slot_of(b);
        let ghost old_mask = this.c.excluded_buttons;
        this.c.excluded_buttons = this.c.excluded_buttons | (1u32 << slot);
        proof {
            assert forall|x: Button|
                this@.excluded_buttons.contains(x) == old_view.excluded_buttons.insert(b).contains(
                    x,
                ) by {
                lemma_mask_insert(old_mask, slot, button_slot(x));
            }
            assert(this@.excluded_buttons =~= old_view.excluded_buttons.insert(b));
        }
        this
    }

    /// Exclude several buttons at once.
    pub fn exclude_buttons(self, btns: &[Button]) -> (r: Self)
        ensures
            r@ == (ConfigView {
                excluded_buttons: self@.excluded_buttons.union(btns@.to_set()),
                ..self@
            }),
    {
        let mut this = self;
        let ghost start = this@;
        let n = btns.len();
        assert(start.excluded_buttons.union(btns@.take(0).to_set()) =~= start.excluded_buttons);
        for i in 0..n
            invariant
                n == btns@.len(),
                this@ == (ConfigView {
                    excluded_buttons: start.excluded_buttons.union(
                        btns@.take(i as int).to_set(),
                    ),
                    ..start
                }),
        {
            let ghost before = this@;
            let b = btns[i];
            this = this.exclude_button(b);
            proof {
                assert(btns@.take(i + 1) =~= btns@.take(i as int).push(b));
                btns@.take(i as int).lemma_push_to_set_commute(b);
                assert(this@.excluded_buttons =~= start.excluded_buttons.union(
                    btns@.take(i + 1).to_set(),
                ));
            }
        }
        assert(btns@.take(n as int) =~= btns@);
        this
    }

    /// Exclude an analog trigger from reporting.
    pub fn exclude_trigger(self, t: TriggerSide) -> (r: Self)
        ensures
            r@ == (ConfigView { excluded_triggers: self@.excluded_triggers.insert(t), ..self@ }),
    {
        let mut this = self;
        proof {
            use_type_invariant(&this.c);
        }
        let ghost old_view = this@;
        match t {
            TriggerSide::Left => this.c.exclude_left_trigger = true,
            TriggerSide::Right => this.c.exclude_right_trigger = true,
        }
        assert(this@.excluded_triggers =~= old_view.excluded_triggers.insert(t));
        this
    }

    /// Exclude a stick from reporting.
    pub fn exclude_stick(self, s: StickSide) -> (r: Self)
        ensures
            r@ == (ConfigView { excluded_sticks: self@.excluded_sticks.insert(s), ..self@ }),
    {
        let mut this = self;
        proof {
            use_type_invariant(&this.c);
        }
        let ghost old_view = this@;
        match s {
            StickSide::Left => this.c.exclude_left_stick = true,
            StickSide::Right => this.c.exclude_right_stick = true,
        }
        assert(this@.excluded_sticks =~= old_view.excluded_sticks.insert(s));
        this
    }

    /// Toggle touchpad events.  Default **true**.
    pub fn report_touch(self, v: bool) -> (b: Self)
        ensures
            b@ == (ConfigView { report_touch: v, ..self@ }),
    {
        let mut this = self;
        proof {
            use_type_invariant(&this.c);
        }
        this.c.report_touch = v;
        this
    }

    /// Toggle gyroscope events.  Default **true**.
    pub fn report_gyro(self, v: bool) -> (b: Self)
        ensures
            b@ == (ConfigView { report_gyro: v, ..self@ }),
    {
        let mut this = self;
        proof {
            use_type_invariant(&this.c);
        }
        this.c.report_gyro = v;
        this
    }

    /// Toggle accelerometer events.  Default **true**.
    pub fn report_accel(self, v: bool) -> (b: Self)
        ensures
            b@ == (ConfigView { report_accel: v, ..self@ }),
    {
        let mut this = self;
        proof {
            use_type_invariant(&this.c);
        }
        this.c.report_accel = v;
        this
    }

    /// Produce the final [`Config`].
    pub fn build(self) -> (c: Config)
        ensures
            c@ == self@,
            c@.stick_deadzone <= 127,
    {
        proof {
            use_type_invariant(&self.c);
        }
        self.c
    }
}

// ── laws ──────────────────────────────────────────────────────────

/// The exclusion set after excluding the buttons of `btns` one at a time,
/// first to last, as a chain of [`ConfigBuilder::exclude_button`] calls does.
pub open spec fn excluded_one_by_one(excluded: Set<Button>, btns: Seq<Button>) -> Set<Button>
    decreases btns.len(),
{
    if btns.len() == 0 {
        excluded
    } else {
        excluded_one_by_one(excluded, btns.drop_last()).insert(btns.last())
    }
}

/// Excluding several buttons at once is excluding them one at a time: the
/// result of [`ConfigBuilder::exclude_buttons`] equals a chain of
/// [`ConfigBuilder::exclude_button`] calls over the same buttons, depends only
/// on which buttons the slice holds (not on their order or repeats), leaves
/// the set unchanged for an empty slice, and is the same when done twice.
pub proof fn lemma_exclude_buttons_one_by_one(
    excluded: Set<Button>,
    btns: Seq<Button>,
    other: Seq<Button>,
)
    ensures
        excluded.union(btns.to_set()) == excluded_one_by_one(excluded, btns),
        btns.to_set() == other.to_set() ==> excluded.union(btns.to_set()) == excluded.union(
            other.to_set(),
        ),
        btns.len() == 0 ==> excluded.union(btns.to_set()) == excluded,
        excluded.union(btns.to_set()).union(btns.to_set()) == excluded.union(btns.to_set()),
    decreases btns.len(),
{
    broadcast use vstd::seq_lib::group_seq_properties;

    if btns.len() == 0 {
        assert(btns.to_set() =~= Set::<Button>::empty());
        assert(excluded.union(btns.to_set()) =~= excluded);
    } else {
        let rest = btns.drop_last();
        lemma_exclude_buttons_one_by_one(excluded, rest, rest);
        assert(btns == rest.push(btns.last()));
        rest.lemma_push_to_set_commute(btns.last());
        assert(excluded.union(btns.to_set()) =~= excluded.union(rest.to_set()).insert(btns.last()));
    }
    assert(excluded.union(btns.to_set()).union(btns.to_set()) =~= excluded.union(btns.to_set()));
}

} // verus!
