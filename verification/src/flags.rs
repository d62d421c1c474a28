//! A set of pressed inputs (mouse buttons and modifier keys), held as six bits.
use vstd::prelude::*;

verus! {

/// Bit of the left mouse button.
pub const LEFT_CLICK: u8 = 0b0000_0001;
/// Bit of the right mouse button.
pub const RIGHT_CLICK: u8 = 0b0000_0010;
/// Bit of the middle mouse button.
pub const MIDDLE_CLICK: u8 = 0b0000_0100;
/// Bit of either shift key.
pub const SHIFT: u8 = 0b0000_1000;
/// Bit of either control key.
pub const CTRL: u8 = 0b0001_0000;
/// Bit of either alt key.
pub const ALT: u8 = 0b0010_0000;
/// The three mouse-button bits.
pub const CLICKS: u8 = 0b0000_0111;
/// The three modifier-key bits.
pub const MODIFIERS: u8 = 0b0011_1000;
/// Every bit that names a known input.
pub const ALL_BITS: u8 = 0b0011_1111;

/// Flags that keep track of relevant inputs.
///
/// `bits` may hold any value, as a flags value built from raw bits can; the
/// named constructors and `from_bits_truncate` only ever set known bits.
#[derive(Clone, Copy, Debug, PartialEq, Eq, Structural)]
pub struct InputFlags {
    pub bits: u8,
}

/// Whether every bit of `b` is set in `a`.
pub open spec fn bits_contain(a: u8, b: u8) -> bool {
    a & b == b
}

/// Whether `a` and `b` share a set bit.
pub open spec fn bits_intersect(a: u8, b: u8) -> bool {
    a & b != 0
}

/// Each named flag, and each group of them, holds known bits only; the
/// groups are unions of their members.
pub proof fn lemma_named_bits_known()
    ensures
        LEFT_CLICK & ALL_BITS == LEFT_CLICK,
        RIGHT_CLICK & ALL_BITS == RIGHT_CLICK,
        MIDDLE_CLICK & ALL_BITS == MIDDLE_CLICK,
        SHIFT & ALL_BITS == SHIFT,
        CTRL & ALL_BITS == CTRL,
        ALT & ALL_BITS == ALT,
        CLICKS & ALL_BITS == CLICKS,
        MODIFIERS & ALL_BITS == MODIFIERS,
        CLICKS == LEFT_CLICK | RIGHT_CLICK | MIDDLE_CLICK,
        MODIFIERS == SHIFT | CTRL | ALT,
        ALL_BITS == CLICKS | MODIFIERS,
{
    assert(1u8 & 63u8 == 1u8 && 2u8 & 63u8 == 2u8 && 4u8 & 63u8 == 4u8 && 8u8 & 63u8 == 8u8
        && 16u8 & 63u8 == 16u8 && 32u8 & 63u8 == 32u8 && 7u8 & 63u8 == 7u8 && 56u8 & 63u8 == 56u8
        && 7u8 == 1u8 | 2u8 | 4u8 && 56u8 == 8u8 | 16u8 | 32u8 && 63u8 == 7u8 | 56u8) by (bit_vector);
}

/// The known bits of `bits * n`.
pub open spec fn scaled_bits(bits: u8, n: u8) -> u8 {
    ((bits * n) as u8) & ALL_BITS
}

/// Set algebra of flags: a union holds both parts, an intersection is held by
/// both parts, every value holds itself and the empty value, and no value
/// shares a bit with the empty value.
pub proof fn lemma_set_algebra(a: u8, b: u8)
    ensures
        bits_contain(a | b, a),
        bits_contain(a | b, b),
        bits_contain(a, a & b),
        bits_contain(b, a & b),
        bits_contain(a, a),
        bits_contain(a, 0),
        !bits_intersect(a, 0),
        bits_intersect(a, b) == bits_intersect(b, a),
        bits_contain(a, b) && b != 0 ==> bits_intersect(a, b),
{
    assert(((a | b) & a == a) && ((a | b) & b == b) && (a & (a & b) == a & b) && (b & (a & b)
        == a & b) && (a & a == a) && (a & 0 == 0) && (a & b == b & a)) by (bit_vector);
}

/// Truncating keeps only known bits, and keeps a value that has only known bits.
pub proof fn lemma_truncate_known(b: u8)
    ensures
        (b & ALL_BITS) & ALL_BITS == b & ALL_BITS,
        b & ALL_BITS == b <==> b < 64,
{
    assert(((b & 63u8) & 63u8 == b & 63u8) && (b & 63u8 == b <==> b < 64)) by (bit_vector);
}

/// Scaling a value of known bits by 1 keeps it; scaling by 0 clears it.
pub proof fn lemma_scale_by_bit(bits: u8)
    requires
        bits & ALL_BITS == bits,
    ensures
        scaled_bits(bits, 1) == bits,
        scaled_bits(bits, 0) == 0,
{
    assert(((bits * 1u8) as u8) & 63u8 == bits && ((bits * 0u8) as u8) & 63u8 == 0) by (bit_vector)
        requires
            bits & 63u8 == bits,
    ;
}

impl InputFlags {
    /// The flags value with no bit set.
    pub fn empty() -> (r: InputFlags)
        ensures
            r.bits == 0,
    {
        InputFlags { bits: 0 }
    }

    /// The flags value with every known bit set.
    pub fn all() -> (r: InputFlags)
        ensures
            r.bits == ALL_BITS,
    {
        InputFlags { bits: ALL_BITS }
    }

    /// The left mouse button.
    pub fn left_click() -> (r: InputFlags)
        ensures
            r.bits == LEFT_CLICK,
    {
        InputFlags { bits: LEFT_CLICK }
    }

    /// The right mouse button.
    pub fn right_click() -> (r: InputFlags)
        ensures
            r.bits == RIGHT_CLICK,
    {
        InputFlags { bits: RIGHT_CLICK }
    }

    /// The middle mouse button.
    pub fn middle_click() -> (r: InputFlags)
        ensures
            r.bits == MIDDLE_CLICK,
    {
        InputFlags { bits: MIDDLE_CLICK }
    }

    /// Either shift key.
    pub fn shift() -> (r: InputFlags)
        ensures
            r.bits == SHIFT,
    {
        InputFlags { bits: SHIFT }
    }

    /// Either control key.
    pub fn ctrl() -> (r: InputFlags)
        ensures
            r.bits == CTRL,
    {
        InputFlags { bits: CTRL }
    }

    /// Either alt key.
    pub fn alt() -> (r: InputFlags)
        ensures
            r.bits == ALT,
    {
        InputFlags { bits: ALT }
    }

    /// All three mouse buttons.
    pub fn clicks() -> (r: InputFlags)
        ensures
            r.bits == CLICKS,
    {
        InputFlags { bits: CLICKS }
    }

    /// All three modifier keys.
    pub fn modifiers() -> (r: InputFlags)
        ensures
            r.bits == MODIFIERS,
    {
        InputFlags { bits: MODIFIERS }
    }

    /// The raw bits.
    pub fn bits(&self) -> (r: u8)
        ensures
            r == self.bits,
    {
        self.bits
    }

    /// A flags value holding exactly `bits`.
    pub fn from_bits_retain(bits: u8) -> (r: InputFlags)
        ensures
            r.bits == bits,
    {
        InputFlags { bits }
    }

    /// A flags value holding the known bits of `bits`; the others are dropped.
    pub fn from_bits_truncate(bits: u8) -> (r: InputFlags)
        ensures
            r.bits == bits & ALL_BITS,
    {
        InputFlags { bits: bits & ALL_BITS }
    }

    /// Whether no bit is set.
    pub fn is_empty(&self) -> (r: bool)
        ensures
            r == (self.bits == 0),
    {
        self.bits == 0
    }

    /// Whether all set bits in `other` are also set in `self`.
    pub fn contains(&self, other: InputFlags) -> (r: bool)
        ensures
            r == bits_contain(self.bits, other.bits),
    {
        self.bits & other.bits == other.bits
    }

    /// Whether `self` and `other` share a set bit.
    pub fn intersects(&self, other: InputFlags) -> (r: bool)
        ensures
            r == bits_intersect(self.bits, other.bits),
    {
        self.bits & other.bits != 0
    }

    /// The bits set in either `self` or `other`.
    pub fn union(self, other: InputFlags) -> (r: InputFlags)
        ensures
            r.bits == self.bits | other.bits,
    {
        InputFlags { bits: self.bits | other.bits }
    }

    /// The bits set in both `self` and `other`.
    pub fn intersection(self, other: InputFlags) -> (r: InputFlags)
        ensures
            r.bits == self.bits & other.bits,
    {
        InputFlags { bits: self.bits & other.bits }
    }
}

impl core::ops::BitOr for InputFlags {
    type Output = InputFlags;

    fn bitor(self, rhs: InputFlags) -> (r: InputFlags) {
        InputFlags { bits: self.bits | rhs.bits }
    }
}

impl vstd::std_specs::ops::BitOrSpecImpl for InputFlags {
    open spec fn obeys_bitor_spec() -> bool {
        true
    }

    open spec fn bitor_req(self, rhs: InputFlags) -> bool {
        true
    }

    open spec fn bitor_spec(self, rhs: InputFlags) -> InputFlags {
        InputFlags { bits: self.bits | rhs.bits }
    }
}

impl core::ops::BitAnd for InputFlags {
    type Output = InputFlags;

    fn bitand(self, rhs: InputFlags) -> (r: InputFlags) {
        InputFlags { bits: self.bits & rhs.bits }
    }
}

impl vstd::std_specs::ops::BitAndSpecImpl for InputFlags {
    open spec fn obeys_bitand_spec() -> bool {
        true
    }

    open spec fn bitand_req(self, rhs: InputFlags) -> bool {
        true
    }

    open spec fn bitand_spec(self, rhs: InputFlags) -> InputFlags {
        InputFlags { bits: self.bits & rhs.bits }
    }
}

/// Scaling by a number keeps the known bits of the product: scaling by 1 keeps
/// the flags, scaling by 0 clears them.
impl core::ops::Mul<u8> for InputFlags {
    type Output = InputFlags;

    fn mul(self, rhs: u8) -> (r: InputFlags) {
        InputFlags::from_bits_truncate(self.bits * rhs)
    }
}

impl vstd::std_specs::ops::MulSpecImpl<u8> for InputFlags {
    open spec fn obeys_mul_spec() -> bool {
        true
    }

    open spec fn mul_req(self, rhs: u8) -> bool {
        self.bits * rhs <= u8::MAX
    }

    open spec fn mul_spec(self, rhs: u8) -> InputFlags {
        InputFlags { bits: scaled_bits(self.bits, rhs) }
    }
}

} // verus!
