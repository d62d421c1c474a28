//! Which inputs are pressed, as flags.
use vstd::prelude::*;
use crate::flags::{
    bits_contain, lemma_named_bits_known, lemma_scale_by_bit, scaled_bits, InputFlags, ALL_BITS,
    ALT, CTRL, LEFT_CLICK, MIDDLE_CLICK, RIGHT_CLICK, SHIFT,
};

verus! {

/// Which of the watched mouse buttons and keys are held down.
#[derive(Clone, Copy, Debug, PartialEq, Eq, Structural)]
pub struct PressedInputs {
    pub left_mouse: bool,
    pub right_mouse: bool,
    pub middle_mouse: bool,
    pub shift_left: bool,
    pub shift_right: bool,
    pub control_left: bool,
    pub control_right: bool,
    pub alt_left: bool,
    pub alt_right: bool,
}

/// `bit` when `on` holds, else no bit.
pub open spec fn bit_if(on: bool, bit: u8) -> u8 {
    if on {
        bit
    } else {
        0
    }
}

/// The flags bits of what is pressed: a button's own bit, and a modifier's bit
/// when its left or its right key is down.
pub open spec fn pressed_bits(p: PressedInputs) -> u8 {
    bit_if(p.left_mouse, LEFT_CLICK) | bit_if(p.right_mouse, RIGHT_CLICK) | bit_if(
        p.middle_mouse,
        MIDDLE_CLICK,
    ) | bit_if(p.shift_left || p.shift_right, SHIFT) | bit_if(
        p.control_left || p.control_right,
        CTRL,
    ) | bit_if(p.alt_left || p.alt_right, ALT)
}

/// A known flag scaled by a pressed state is that flag when pressed, else empty.
proof fn lemma_scaled_flag(bit: u8, on: bool, n: u8)
    requires
        bit & ALL_BITS == bit,
        n == (if on { 1u8 } else { 0u8 }),
    ensures
        scaled_bits(bit, n) == bit_if(on, bit),
{
    lemma_scale_by_bit(bit);
}

/// One flag value reads which button or key is down.
proof fn lemma_pressed_bits_read(l: bool, r: bool, m: bool, s: bool, c: bool, a: bool)
    ensures
        ({
            let b = bit_if(l, LEFT_CLICK) | bit_if(r, RIGHT_CLICK) | bit_if(m, MIDDLE_CLICK)
                | bit_if(s, SHIFT) | bit_if(c, CTRL) | bit_if(a, ALT);
            &&& bits_contain(b, LEFT_CLICK) == l
            &&& bits_contain(b, RIGHT_CLICK) == r
            &&& bits_contain(b, MIDDLE_CLICK) == m
            &&& bits_contain(b, SHIFT) == s
            &&& bits_contain(b, CTRL) == c
            &&& bits_contain(b, ALT) == a
            &&& b & ALL_BITS == b
        }),
{
    assert({
        let b = (if l { 1u8 } else { 0u8 }) | (if r { 2u8 } else { 0u8 }) | (if m { 4u8 } else { 0u8 })
            | (if s { 8u8 } else { 0u8 }) | (if c { 16u8 } else { 0u8 }) | (if a { 32u8 } else { 0u8 });
        &&& (b & 1u8 == 1u8) == l
        &&& (b & 2u8 == 2u8) == r
        &&& (b & 4u8 == 4u8) == m
        &&& (b & 8u8 == 8u8) == s
        &&& (b & 16u8 == 16u8) == c
        &&& (b & 32u8 == 32u8) == a
        &&& b & 63u8 == b
    }) by (bit_vector);
}

/// The flags of the inputs that are pressed: each mouse button sets its own
/// flag, and shift, control and alt set theirs when either the left or the
/// right key is down.
pub fn get_inputs(p: &PressedInputs) -> (r: InputFlags)
    ensures
        r.bits == pressed_bits(*p),
        bits_contain(r.bits, LEFT_CLICK) == p.left_mouse,
        bits_contain(r.bits, RIGHT_CLICK) == p.right_mouse,
        bits_contain(r.bits, MIDDLE_CLICK) == p.middle_mouse,
        bits_contain(r.bits, SHIFT) == (p.shift_left || p.shift_right),
        bits_contain(r.bits, CTRL) == (p.control_left || p.control_right),
        bits_contain(r.bits, ALT) == (p.alt_left || p.alt_right),
        r.bits & ALL_BITS == r.bits,
{
    let l: u8 = if p.left_mouse { 1 } else { 0 };
    let rt: u8 = if p.right_mouse { 1 } else { 0 };
    let m: u8 = if p.middle_mouse { 1 } else { 0 };
    let s: u8 = if p.shift_left || p.shift_right { 1 } else { 0 };
    let c: u8 = if p.control_left || p.control_right { 1 } else { 0 };
    let a: u8 = if p.alt_left || p.alt_right { 1 } else { 0 };
    proof {
        lemma_named_bits_known();
        lemma_scaled_flag(LEFT_CLICK, p.left_mouse, l);
        lemma_scaled_flag(RIGHT_CLICK, p.right_mouse, rt);
        lemma_scaled_flag(MIDDLE_CLICK, p.middle_mouse, m);
        lemma_scaled_flag(SHIFT, p.shift_left || p.shift_right, s);
        lemma_scaled_flag(CTRL, p.control_left || p.control_right, c);
        lemma_scaled_flag(ALT, p.alt_left || p.alt_right, a);
        lemma_pressed_bits_read(
            p.left_mouse,
            p.right_mouse,
            p.middle_mouse,
            p.shift_left || p.shift_right,
            p.control_left || p.control_right,
            p.alt_left || p.alt_right,
        );
    }
    (InputFlags::left_click() * l) | (InputFlags::right_click() * rt) | (InputFlags::middle_click()
        * m) | (InputFlags::shift() * s) | (InputFlags::ctrl() * c) | (InputFlags::alt() * a)
}

} // verus!
