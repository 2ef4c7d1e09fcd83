use vstd::prelude::*;

verus! {

/// Physical buttons on the DualSense controller.
#[derive(Debug, Clone, Copy, PartialEq, Eq, Hash)]
pub enum Button {
    // Face buttons
    Cross,
    Circle,
    Square,
    Triangle,
    // D-pad
    DPadUp,
    DPadDown,
    DPadLeft,
    DPadRight,
    // Shoulder
    L1,
    R1,
    // Trigger digital click (full press)
    L2Digital,
    R2Digital,
    // Stick clicks
    L3,
    R3,
    // System
    Create,
    Options,
    PS,
    Touchpad,
    Mute,
}

/// Analog trigger side.
#[derive(Debug, Clone, Copy, PartialEq, Eq, Hash)]
pub enum TriggerSide {
    Left,
    Right,
}

/// Analog stick side.
#[derive(Debug, Clone, Copy, PartialEq, Eq, Hash)]
pub enum StickSide {
    Left,
    Right,
}

/// Decoded D-pad hat direction.
#[derive(Debug, Clone, Copy, PartialEq, Eq)]
pub enum DPad {
    Up,
    UpRight,
    Right,
    DownRight,
    Down,
    DownLeft,
    Left,
    UpLeft,
    Released,
}

/// The hat direction that a 4-bit hat value stands for: values 0 to 7 go
/// clockwise from `Up`, every other value means the hat is released.
pub open spec fn dpad_of_hat(hat: u8) -> DPad {
    if hat == 0 {
        DPad::Up
    } else if hat == 1 {
        DPad::UpRight
    } else if hat == 2 {
        DPad::Right
    } else if hat == 3 {
        DPad::DownRight
    } else if hat == 4 {
        DPad::Down
    } else if hat == 5 {
        DPad::DownLeft
    } else if hat == 6 {
        DPad::Left
    } else if hat == 7 {
        DPad::UpLeft
    } else {
        DPad::Released
    }
}

/// The printed name of a hat direction (the variant's name).
pub open spec fn dpad_name(d: DPad) -> Seq<char> {
    match d {
        DPad::Up => "Up"@,
        DPad::UpRight => "UpRight"@,
        DPad::Right => "Right"@,
        DPad::DownRight => "DownRight"@,
        DPad::Down => "Down"@,
        DPad::DownLeft => "DownLeft"@,
        DPad::Left => "Left"@,
        DPad::UpLeft => "UpLeft"@,
        DPad::Released => "Released"@,
    }
}

impl DPad {
    /// Decode the 4-bit hat value from the lower nibble of the first button byte.
    pub fn from_nibble(v: u8) -> (d: Self)
        ensures
            d == dpad_of_hat(v & 0x0F),
    {
        let hat = v & 0x0F;
        if hat == 0 {
            Self::Up
        } else if hat == 1 {
            Self::UpRight
        } else if hat == 2 {
            Self::Right
        } else if hat == 3 {
            Self::DownRight
        } else if hat == 4 {
            Self::Down
        } else if hat == 5 {
            Self::DownLeft
        } else if hat == 6 {
            Self::Left
        } else if hat == 7 {
            Self::UpLeft
        } else {
            Self::Released
        }
    }

    /// The direction's name, as it is printed.
    pub fn to_string(&self) -> (s: String)
        ensures
            s@ == dpad_name(*self),
    {
        match self {
            DPad::Up => "Up".to_owned(),
            DPad::UpRight => "UpRight".to_owned(),
            DPad::Right => "Right".to_owned(),
            DPad::DownRight => "DownRight".to_owned(),
            DPad::Down => "Down".to_owned(),
            DPad::DownLeft => "DownLeft".to_owned(),
            DPad::Left => "Left".to_owned(),
            DPad::UpLeft => "UpLeft".to_owned(),
            DPad::Released => "Released".to_owned(),
        }
    }
}


/// The bit that a button occupies in the packed 24-bit button word
/// (`btn0 | btn1 << 8 | btn2 << 16`). The D-pad directions have none:
/// they are encoded together as the hat value in the lower nibble of `btn0`.
pub open spec fn packed_bit(b: Button) -> Option<u32> {
    match b {
        Button::Square => Some(0x10u32),
        Button::Cross => Some(0x20u32),
        Button::Circle => Some(0x40u32),
        Button::Triangle => Some(0x80u32),
        Button::L1 => Some(0x100u32),
        Button::R1 => Some(0x200u32),
        Button::L2Digital => Some(0x400u32),
        Button::R2Digital => Some(0x800u32),
        Button::Create => Some(0x1000u32),
        Button::Options => Some(0x2000u32),
        Button::L3 => Some(0x4000u32),
        Button::R3 => Some(0x8000u32),
        Button::PS => Some(0x1_0000u32),
        Button::Touchpad => Some(0x2_0000u32),
        Button::Mute => Some(0x4_0000u32),
        _ => None,
    }
}

/// The button whose packed bit is exactly `bit`, if any.
pub open spec fn button_for_bit(bit: u32) -> Option<Button> {
    if bit == 0x10 {
        Some(Button::Square)
    } else if bit == 0x20 {
        Some(Button::Cross)
    } else if bit == 0x40 {
        Some(Button::Circle)
    } else if bit == 0x80 {
        Some(Button::Triangle)
    } else if bit == 0x100 {
        Some(Button::L1)
    } else if bit == 0x200 {
        Some(Button::R1)
    } else if bit == 0x400 {
        Some(Button::L2Digital)
    } else if bit == 0x800 {
        Some(Button::R2Digital)
    } else if bit == 0x1000 {
        Some(Button::Create)
    } else if bit == 0x2000 {
        Some(Button::Options)
    } else if bit == 0x4000 {
        Some(Button::L3)
    } else if bit == 0x8000 {
        Some(Button::R3)
    } else if bit == 0x1_0000 {
        Some(Button::PS)
    } else if bit == 0x2_0000 {
        Some(Button::Touchpad)
    } else if bit == 0x4_0000 {
        Some(Button::Mute)
    } else {
        None
    }
}

/// The packed button word of the three raw button bytes.
pub open spec fn packed_word(btn0: u8, btn1: u8, btn2: u8) -> u32 {
    (btn0 + 256 * btn1 + 65536 * btn2) as u32
}

/// Whether button `b` is held in the packed word `word`.
pub open spec fn is_held(word: u32, b: Button) -> bool {
    match packed_bit(b) {
        Some(m) => word & m != 0,
        None => false,
    }
}

/// The buttons with a packed bit, in the order of their bits.
pub open spec fn packed_order() -> Seq<Button> {
    seq![
        Button::Square,
        Button::Cross,
        Button::Circle,
        Button::Triangle,
        Button::L1,
        Button::R1,
        Button::L2Digital,
        Button::R2Digital,
        Button::Create,
        Button::Options,
        Button::L3,
        Button::R3,
        Button::PS,
        Button::Touchpad,
        Button::Mute,
    ]
}

/// The buttons held in `word`, in the order of their bits.
pub open spec fn held_buttons(word: u32) -> Seq<Button> {
    packed_order().filter(|b: Button| is_held(word, b))
}

/// Pack the three button bytes into a single u32 (lower 24 bits) for
/// easy change-detection via XOR.
pub fn pack_buttons(btn0: u8, btn1: u8, btn2: u8) -> (w: u32)
    ensures
        w == packed_word(btn0, btn1, btn2),
        w < 0x100_0000,
{
    let w = (btn0 as u32) | ((btn1 as u32) << 8) | ((btn2 as u32) << 16);
    assert(w == btn0 as u32 + 256 * (btn1 as u32) + 65536 * (btn2 as u32)) by (bit_vector)
        requires
            w == (btn0 as u32) | ((btn1 as u32) << 8) | ((btn2 as u32) << 16),
    ;
    w
}

/// Turn a set bit position in the packed u32 back into a Button.
pub fn bit_to_button(bit: u32) -> (r: Option<Button>)
    ensures
        r == button_for_bit(bit),
{
    match bit {
        0x10 => Some(Button::Square),
        0x20 => Some(Button::Cross),
        0x40 => Some(Button::Circle),
        0x80 => Some(Button::Triangle),
        0x100 => Some(Button::L1),
        0x200 => Some(Button::R1),
        0x400 => Some(Button::L2Digital),
        0x800 => Some(Button::R2Digital),
        0x1000 => Some(Button::Create),
        0x2000 => Some(Button::Options),
        0x4000 => Some(Button::L3),
        0x8000 => Some(Button::R3),
        0x1_0000 => Some(Button::PS),
        0x2_0000 => Some(Button::Touchpad),
        0x4_0000 => Some(Button::Mute),
        _ => None,
    }
}

/// The packed bit of a button that has one.
fn packed_bit_of(b: Button) -> (m: u32)
    requires
        packed_bit(b) is Some,
    ensures
        packed_bit(b) == Some(m),
{
    match b {
        Button::Square => 0x10,
        Button::Cross => 0x20,
        Button::Circle => 0x40,
        Button::Triangle => 0x80,
        Button::L1 => 0x100,
        Button::R1 => 0x200,
        Button::L2Digital => 0x400,
        Button::R2Digital => 0x800,
        Button::Create => 0x1000,
        Button::Options => 0x2000,
        Button::L3 => 0x4000,
        Button::R3 => 0x8000,
        Button::PS => 0x1_0000,
        Button::Touchpad => 0x2_0000,
        Button::Mute => 0x4_0000,
        _ => 0,
    }
}

/// Decode all currently-held buttons from the three raw button bytes,
/// in the order of their bits (face buttons, shoulders and triggers,
/// Create / Options, stick clicks, then PS / Touchpad / Mute).
pub fn buttons_from_bytes(btn0: u8, btn1: u8, btn2: u8) -> (v: Vec<Button>)
    ensures
        v@ == held_buttons(packed_word(btn0, btn1, btn2)),
{
    let word = pack_buttons(btn0, btn1, btn2);
    let order: [Button; 15] = [
        Button::Square,
        Button::Cross,
        Button::Circle,
        Button::Triangle,
        Button::L1,
        Button::R1,
        Button::L2Digital,
        Button::R2Digital,
        Button::Create,
        Button::Options,
        Button::L3,
        Button::R3,
        Button::PS,
        Button::Touchpad,
        Button::Mute,
    ];
    assert(order@ =~= packed_order());
    let ghost pred = |b: Button| is_held(word, b);
    let mut v: Vec<Button> = Vec::with_capacity(12);
    for i in 0..15
        invariant
            order@ == packed_order(),
            v@ == packed_order().take(i as int).filter(pred),
            pred == (|b: Button| is_held(word, b)),
    {
        let b = order[i];
        proof {
            assert(packed_order().take(i + 1) =~= packed_order().take(i as int).push(b));
            packed_order().take(i as int).lemma_filter_push(b, pred);
        }
        if word & packed_bit_of(b) != 0 {
            v.push(b);
        }
    }
    assert(packed_order().take(15) =~= packed_order());
    v
}


/// The bit table of the buttons and the decoding of a single bit agree:
/// a button has bit `bit` exactly when `bit` decodes to that button.
pub proof fn lemma_bit_decoding_inverts_bit_table(b: Button, bit: u32)
    ensures
        packed_bit(b) == Some(bit) <==> button_for_bit(bit) == Some(b),
{
}

/// Packing the three button bytes loses nothing: each byte can be read
/// back from its own eight bits of the packed word.
pub proof fn lemma_pack_buttons_lossless(btn0: u8, btn1: u8, btn2: u8)
    ensures
        packed_word(btn0, btn1, btn2) & 0xFF == btn0,
        (packed_word(btn0, btn1, btn2) >> 8u32) & 0xFF == btn1,
        packed_word(btn0, btn1, btn2) >> 16u32 == btn2,
{
    let w = packed_word(btn0, btn1, btn2);
    assert(w == btn0 as u32 + 256 * (btn1 as u32) + 65536 * (btn2 as u32));
    assert(w & 0xFF == btn0 && (w >> 8u32) & 0xFF == btn1 && w >> 16u32 == btn2) by (bit_vector)
        requires
            w == btn0 as u32 + 256 * (btn1 as u32) + 65536 * (btn2 as u32),
    ;
}

/// The decoded list of held buttons holds a button exactly when its bit is
/// set in the packed word, and holds no button twice.
pub proof fn lemma_held_buttons_exact(word: u32, b: Button)
    ensures
        held_buttons(word).contains(b) <==> is_held(word, b),
        held_buttons(word).no_duplicates(),
{
    let pred = |x: Button| is_held(word, x);
    let order = packed_order();
    if is_held(word, b) {
        let k: int = choose|k: int| 0 <= k < order.len() && order[k] == b;
        assert(order[k] == b);
        order.lemma_filter_contains(pred, k);
    }
    if held_buttons(word).contains(b) {
        order.lemma_filter_contains_rev(pred, b);
    }
    assert(order.no_duplicates());
    lemma_filter_keeps_no_duplicates(order, pred);
}

proof fn lemma_filter_keeps_no_duplicates(s: Seq<Button>, pred: spec_fn(Button) -> bool)
    requires
        s.no_duplicates(),
    ensures
        s.filter(pred).no_duplicates(),
    decreases s.len(),
{
    broadcast use vstd::seq_lib::group_seq_properties;
    reveal(Seq::filter);
    if s.len() > 0 {
        let rest = s.drop_last();
        assert(rest.no_duplicates());
        lemma_filter_keeps_no_duplicates(rest, pred);
        if pred(s.last()) {
            if rest.filter(pred).contains(s.last()) {
                rest.lemma_filter_contains_rev(pred, s.last());
                let j = choose|j: int| 0 <= j < rest.len() && rest[j] == s.last();
                assert(s[j] == s[s.len() - 1]);
            }
        }
    }
}


/// The 24 bit positions of the packed button word, lowest first.
pub open spec fn packed_bits() -> Seq<u32> {
    Seq::new(24, |i: int| 1u32 << (i as u32))
}

/// The buttons held in `word`, read bit by bit from the lowest: every set
/// bit that decodes to a button gives that button.
pub open spec fn held_by_bits(word: u32) -> Seq<Button> {
    packed_bits().filter_map(|bit: u32| if word & bit != 0 { button_for_bit(bit) } else { None })
}

spec fn held_bit(word: u32) -> spec_fn(u32) -> Option<Button> {
    |bit: u32| if word & bit != 0 { button_for_bit(bit) } else { None }
}

spec fn held_in(word: u32) -> spec_fn(Button) -> bool {
    |b: Button| is_held(word, b)
}

proof fn lemma_bits_step_skip(word: u32, k: int, i: int)
    requires
        0 <= k < 24,
        0 <= i <= 15,
        button_for_bit(packed_bits()[k]) is None,
        packed_bits().take(k).filter_map(held_bit(word)) == packed_order().take(i).filter(
            held_in(word),
        ),
    ensures
        packed_bits().take(k + 1).filter_map(held_bit(word)) == packed_order().take(i).filter(
            held_in(word),
        ),
{
    packed_bits().lemma_filter_map_take_succ(held_bit(word), k);
    assert(packed_bits().take(k + 1).filter_map(held_bit(word)) =~= packed_bits().take(
        k,
    ).filter_map(held_bit(word)));
}

proof fn lemma_bits_step_take(word: u32, k: int, i: int)
    requires
        0 <= k < 24,
        0 <= i < 15,
        button_for_bit(packed_bits()[k]) == Some(packed_order()[i]),
        packed_bit(packed_order()[i]) == Some(packed_bits()[k]),
        packed_bits().take(k).filter_map(held_bit(word)) == packed_order().take(i).filter(
            held_in(word),
        ),
    ensures
        packed_bits().take(k + 1).filter_map(held_bit(word)) == packed_order().take(i + 1).filter(
            held_in(word),
        ),
{
    let order = packed_order();
    packed_bits().lemma_filter_map_take_succ(held_bit(word), k);
    assert(order.take(i + 1) =~= order.take(i).push(order[i]));
    order.take(i).lemma_filter_push(order[i], held_in(word));
    assert(packed_bits().take(k + 1).filter_map(held_bit(word)) =~= order.take(i + 1).filter(
        held_in(word),
    ));
}

/// Which button, if any, the bit at position `k` of the packed word decodes to.
proof fn lemma_bit_at(k: int)
    requires
        0 <= k < 24,
    ensures
        4 <= k <= 18 ==> button_for_bit(packed_bits()[k]) == Some(packed_order()[k - 4])
            && packed_bit(packed_order()[k - 4]) == Some(packed_bits()[k]),
        !(4 <= k <= 18) ==> button_for_bit(packed_bits()[k]) is None,
{
    if k == 0 {
        assert(packed_bits()[0] == 1u32 << 0u32);
        assert(1u32 << 0u32 == 0x1u32) by (bit_vector);
    } else if k == 1 {
        assert(packed_bits()[1] == 1u32 << 1u32);
        assert(1u32 << 1u32 == 0x2u32) by (bit_vector);
    } else if k == 2 {
        assert(packed_bits()[2] == 1u32 << 2u32);
        assert(1u32 << 2u32 == 0x4u32) by (bit_vector);
    } else if k == 3 {
        assert(packed_bits()[3] == 1u32 << 3u32);
        assert(1u32 << 3u32 == 0x8u32) by (bit_vector);
    } else if k == 4 {
        assert(packed_bits()[4] == 1u32 << 4u32);
        assert(1u32 << 4u32 == 0x10u32) by (bit_vector);
    } else if k == 5 {
        assert(packed_bits()[5] == 1u32 << 5u32);
        assert(1u32 << 5u32 == 0x20u32) by (bit_vector);
    } else if k == 6 {
        assert(packed_bits()[6] == 1u32 << 6u32);
        assert(1u32 << 6u32 == 0x40u32) by (bit_vector);
    } else if k == 7 {
        assert(packed_bits()[7] == 1u32 << 7u32);
        assert(1u32 << 7u32 == 0x80u32) by (bit_vector);
    } else if k == 8 {
        assert(packed_bits()[8] == 1u32 << 8u32);
        assert(1u32 << 8u32 == 0x100u32) by (bit_vector);
    } else if k == 9 {
        assert(packed_bits()[9] == 1u32 << 9u32);
        assert(1u32 << 9u32 == 0x200u32) by (bit_vector);
    } else if k == 10 {
        assert(packed_bits()[10] == 1u32 << 10u32);
        assert(1u32 << 10u32 == 0x400u32) by (bit_vector);
    } else if k == 11 {
        assert(packed_bits()[11] == 1u32 << 11u32);
        assert(1u32 << 11u32 == 0x800u32) by (bit_vector);
    } else if k == 12 {
        assert(packed_bits()[12] == 1u32 << 12u32);
        assert(1u32 << 12u32 == 0x1000u32) by (bit_vector);
    } else if k == 13 {
        assert(packed_bits()[13] == 1u32 << 13u32);
        assert(1u32 << 13u32 == 0x2000u32) by (bit_vector);
    } else if k == 14 {
        assert(packed_bits()[14] == 1u32 << 14u32);
        assert(1u32 << 14u32 == 0x4000u32) by (bit_vector);
    } else if k == 15 {
        assert(packed_bits()[15] == 1u32 << 15u32);
        assert(1u32 << 15u32 == 0x8000u32) by (bit_vector);
    } else if k == 16 {
        assert(packed_bits()[16] == 1u32 << 16u32);
        assert(1u32 << 16u32 == 0x10000u32) by (bit_vector);
    } else if k == 17 {
        assert(packed_bits()[17] == 1u32 << 17u32);
        assert(1u32 << 17u32 == 0x20000u32) by (bit_vector);
    } else if k == 18 {
        assert(packed_bits()[18] == 1u32 << 18u32);
        assert(1u32 << 18u32 == 0x40000u32) by (bit_vector);
    } else if k == 19 {
        assert(packed_bits()[19] == 1u32 << 19u32);
        assert(1u32 << 19u32 == 0x80000u32) by (bit_vector);
    } else if k == 20 {
        assert(packed_bits()[20] == 1u32 << 20u32);
        assert(1u32 << 20u32 == 0x100000u32) by (bit_vector);
    } else if k == 21 {
        assert(packed_bits()[21] == 1u32 << 21u32);
        assert(1u32 << 21u32 == 0x200000u32) by (bit_vector);
    } else if k == 22 {
        assert(packed_bits()[22] == 1u32 << 22u32);
        assert(1u32 << 22u32 == 0x400000u32) by (bit_vector);
    } else if k == 23 {
        assert(packed_bits()[23] == 1u32 << 23u32);
        assert(1u32 << 23u32 == 0x800000u32) by (bit_vector);
    }
}

proof fn lemma_held_prefix(word: u32, k: int)
    requires
        0 <= k <= 24,
    ensures
        packed_bits().take(k).filter_map(held_bit(word)) == packed_order().take(
            if k < 4 {
                0
            } else if k > 19 {
                15
            } else {
                k - 4
            },
        ).filter(held_in(word)),
    decreases k,
{
    if k == 0 {
        assert(packed_bits().take(0) =~= Seq::<u32>::empty());
        assert(packed_order().take(0) =~= Seq::<Button>::empty());
        assert(packed_bits().take(0).filter_map(held_bit(word)) =~= packed_order().take(0).filter(
            held_in(word),
        ));
    } else {
        lemma_held_prefix(word, k - 1);
        lemma_bit_at(k - 1);
        if 4 <= k - 1 <= 18 {
            lemma_bits_step_take(word, k - 1, k - 5);
        } else {
            lemma_bits_step_skip(word, k - 1, if k - 1 < 4 { 0 } else { 15 });
        }
    }
}

/// Listing the held buttons in button order is the same as decoding every
/// set bit of the packed word, lowest first.
pub proof fn lemma_held_buttons_by_bits(word: u32)
    ensures
        held_buttons(word) == held_by_bits(word),
{
    lemma_held_prefix(word, 24);
    assert(packed_bits().take(24) =~= packed_bits());
    assert(packed_order().take(15) =~= packed_order());
    assert(held_in(word) =~= (|b: Button| is_held(word, b)));
    assert(held_bit(word) =~= (|bit: u32|
        if word & bit != 0 {
            button_for_bit(bit)
        } else {
            None
        }));
}

/// The direction of a hat value: 0 to 7 go clockwise from `Up` in steps
/// of 45 degrees; any other value means the hat is released.
pub open spec fn hat_direction(hat: int) -> DPad {
    if 0 <= hat < 8 {
        seq![
            DPad::Up,
            DPad::UpRight,
            DPad::Right,
            DPad::DownRight,
            DPad::Down,
            DPad::DownLeft,
            DPad::Left,
            DPad::UpLeft,
        ][hat]
    } else {
        DPad::Released
    }
}

/// [`DPad::from_nibble`] decodes the low nibble of its argument by the
/// clockwise table: value `k` below 8 is the `k`-th direction from `Up`,
/// values 8 to 15 mean released; the high nibble is ignored.
pub proof fn lemma_from_nibble_table(v: u8)
    ensures
        dpad_of_hat(v & 0x0F) == hat_direction(v as int % 16),
        dpad_of_hat(v & 0x0F) == dpad_of_hat((v % 16) as u8),
{
    assert(v & 0x0F == v % 16) by (bit_vector);
}

/// Where each button sits in the three raw button bytes: the face buttons
/// in the upper nibble of the first byte (Square, Cross, Circle, Triangle
/// from bit 4), shoulders, trigger clicks, Create, Options and stick clicks
/// in the second byte (L1, R1, L2, R2, Create, Options, L3, R3 from bit 0),
/// PS, Touchpad and Mute in the low bits of the third byte; the D-pad
/// directions are never held through a bit.
pub proof fn lemma_button_byte_layout(btn0: u8, btn1: u8, btn2: u8, w: u32)
    requires
        w == packed_word(btn0, btn1, btn2),
    ensures
        is_held(w, Button::Square) <==> btn0 & 0x10 != 0,
        is_held(w, Button::Cross) <==> btn0 & 0x20 != 0,
        is_held(w, Button::Circle) <==> btn0 & 0x40 != 0,
        is_held(w, Button::Triangle) <==> btn0 & 0x80 != 0,
        is_held(w, Button::L1) <==> btn1 & 0x01 != 0,
        is_held(w, Button::R1) <==> btn1 & 0x02 != 0,
        is_held(w, Button::L2Digital) <==> btn1 & 0x04 != 0,
        is_held(w, Button::R2Digital) <==> btn1 & 0x08 != 0,
        is_held(w, Button::Create) <==> btn1 & 0x10 != 0,
        is_held(w, Button::Options) <==> btn1 & 0x20 != 0,
        is_held(w, Button::L3) <==> btn1 & 0x40 != 0,
        is_held(w, Button::R3) <==> btn1 & 0x80 != 0,
        is_held(w, Button::PS) <==> btn2 & 0x01 != 0,
        is_held(w, Button::Touchpad) <==> btn2 & 0x02 != 0,
        is_held(w, Button::Mute) <==> btn2 & 0x04 != 0,
        !is_held(w, Button::DPadUp) && !is_held(w, Button::DPadDown) && !is_held(w, Button::DPadLeft)
            && !is_held(w, Button::DPadRight),
{
    assert(w == btn0 as u32 + 256 * (btn1 as u32) + 65536 * (btn2 as u32));
    assert((w & 0x10 != 0 <==> btn0 & 0x10 != 0) && (w & 0x20 != 0 <==> btn0 & 0x20 != 0) && (w & 0x40 != 0 <==> btn0 & 0x40 != 0) && (w & 0x80 != 0 <==> btn0 & 0x80 != 0) && (w & 0x100 != 0 <==> btn1 & 0x01 != 0) && (w & 0x200 != 0 <==> btn1 & 0x02 != 0) && (w & 0x400 != 0 <==> btn1 & 0x04 != 0) && (w & 0x800 != 0 <==> btn1 & 0x08 != 0) && (w & 0x1000 != 0 <==> btn1 & 0x10 != 0) && (w & 0x2000 != 0 <==> btn1 & 0x20 != 0) && (w & 0x4000 != 0 <==> btn1 & 0x40 != 0) && (w & 0x8000 != 0 <==> btn1 & 0x80 != 0) && (w & 0x10000 != 0 <==> btn2 & 0x01 != 0) && (w & 0x20000 != 0 <==> btn2 & 0x02 != 0) && (w & 0x40000 != 0 <==> btn2 & 0x04 != 0)) by (bit_vector)
        requires
            w == btn0 as u32 + 256 * (btn1 as u32) + 65536 * (btn2 as u32),
    ;
}

} // verus!
