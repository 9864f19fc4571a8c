//! Four-bit arithmetic with carry, negative and zero flags.
use vstd::prelude::*;

verus! {

/// The canonical four-bit value held in a raw byte.
pub open spec fn value_of(raw: u8) -> u8 {
    (raw % 16) as u8
}

/// Bit 4 of a raw byte: the carry out of the last operation.
pub open spec fn carry_of(raw: u8) -> bool {
    (raw / 16) % 2 == 1
}

/// Bit 3 of a raw byte: the sign bit of the last result.
pub open spec fn negative_of(raw: u8) -> bool {
    (raw / 8) % 2 == 1
}

/// The two's complement of a four-bit value, as used by subtraction.
pub open spec fn complement_of(value: u8) -> u8 {
    (16 - value % 16) as u8
}

/// The raw result of adding two nibbles: the four-bit values, summed without truncation.
pub open spec fn sum_raw(a: Nibble, b: Nibble) -> u8 {
    (a.value() + b.value()) as u8
}

/// The raw result of subtracting `b` from `a`: `a` plus the complement of `b`.
pub open spec fn difference_raw(a: Nibble, b: Nibble) -> u8 {
    (a.value() + complement_of(b.value())) as u8
}

/// A four-bit number held in a byte whose bits 3 and 4 carry the flags of
/// the arithmetic operation that produced it.
#[derive(Clone, Copy, Debug)]
pub struct Nibble(u8);

impl Nibble {
    /// The byte behind the nibble, before truncation to four bits.
    pub closed spec fn raw(self) -> u8 {
        self.0
    }

    /// The nibble whose raw byte is `raw`.
    pub closed spec fn from_raw(raw: u8) -> Nibble {
        Nibble(raw)
    }

    pub broadcast proof fn lemma_from_raw(raw: u8)
        ensures
            #[trigger] Nibble::from_raw(raw).raw() == raw,
    {
    }

    pub open spec fn value(self) -> u8 {
        value_of(self.raw())
    }

    pub open spec fn carry(self) -> bool {
        carry_of(self.raw())
    }

    pub open spec fn negative(self) -> bool {
        negative_of(self.raw())
    }

    pub open spec fn zero(self) -> bool {
        self.value() == 0
    }

    /// The number read as four-bit two's complement, by the negative flag.
    pub open spec fn signed(self) -> int {
        if self.negative() {
            -(complement_of(self.value()) as int)
        } else {
            self.value() as int
        }
    }

    pub fn get_value(&self) -> (r: u8)
        ensures
            r == self.value(),
    {
        let raw = self.0;
        assert(raw & 0b1111 == raw % 16) by (bit_vector);
        raw & 0b1111
    }

    pub fn has_carry(&self) -> (r: bool)
        ensures
            r == self.carry(),
    {
        let raw = self.0;
        assert((raw & 0b10000 != 0) == ((raw / 16) % 2 == 1)) by (bit_vector);
        (raw & 0b10000) != 0
    }

    pub fn has_negative(&self) -> (r: bool)
        ensures
            r == self.negative(),
    {
        let raw = self.0;
        assert((raw & 0b1000 != 0) == ((raw / 8) % 2 == 1)) by (bit_vector);
        (raw & 0b1000) != 0
    }

    pub fn is_zero(&self) -> (r: bool)
        ensures
            r == self.zero(),
    {
        self.get_value() == 0
    }

    pub fn as_unsigned(&self) -> (r: i32)
        ensures
            r == self.value() as int,
    {
        self.get_value() as i32
    }

    pub fn as_signed(&self) -> (r: i32)
        ensures
            r == self.signed(),
    {
        if self.has_negative() {
            return -(self.arithmetic_complement() as i32);
        }
        self.get_value() as i32
    }

    fn arithmetic_complement(&self) -> (r: u8)
        ensures
            r == complement_of(self.value()),
    {
        let v = self.get_value();
        assert(v < 16 ==> (!v) & 0b1111 == 15 - v) by (bit_vector);
        ((!v) & 0b1111) + 1
    }
}

/// Adds the four-bit values; the sum keeps its fifth bit as the carry.
impl core::ops::Add for Nibble {
    type Output = Nibble;

    fn add(self, rhs: Nibble) -> (r: Nibble) {
        Nibble(self.get_value() + rhs.get_value())
    }
}

impl vstd::std_specs::ops::AddSpecImpl for Nibble {
    open spec fn obeys_add_spec() -> bool {
        true
    }

    open spec fn add_req(self, rhs: Nibble) -> bool {
        true
    }

    open spec fn add_spec(self, rhs: Nibble) -> Nibble {
        Nibble::from_raw(sum_raw(self, rhs))
    }
}

/// Adds the complement of the right operand; the carry then means that no
/// borrow occurred.
impl core::ops::Sub for Nibble {
    type Output = Nibble;

    fn sub(self, rhs: Nibble) -> (r: Nibble) {
        Nibble(self.get_value() + rhs.arithmetic_complement())
    }
}

impl vstd::std_specs::ops::SubSpecImpl for Nibble {
    open spec fn obeys_sub_spec() -> bool {
        true
    }

    open spec fn sub_req(self, rhs: Nibble) -> bool {
        true
    }

    open spec fn sub_spec(self, rhs: Nibble) -> Nibble {
        Nibble::from_raw(difference_raw(self, rhs))
    }
}

/// The low byte of the number becomes the raw byte.
impl From<usize> for Nibble {
    fn from(value: usize) -> (r: Nibble) {
        Nibble((value % 256) as u8)
    }
}

impl vstd::std_specs::convert::FromSpecImpl<usize> for Nibble {
    open spec fn obeys_from_spec() -> bool {
        true
    }

    open spec fn from_spec(value: usize) -> Nibble {
        Nibble::from_raw((value % 256) as u8)
    }
}

/// The low byte of the number's two's complement becomes the raw byte.
impl From<i32> for Nibble {
    fn from(value: i32) -> (r: Nibble) {
        let wide = value as i64 + 0x1_0000_0000i64;
        Nibble((wide % 256) as u8)
    }
}

impl vstd::std_specs::convert::FromSpecImpl<i32> for Nibble {
    open spec fn obeys_from_spec() -> bool {
        true
    }

    open spec fn from_spec(value: i32) -> Nibble {
        Nibble::from_raw((value as int % 256) as u8)
    }
}

impl From<u8> for Nibble {
    fn from(value: u8) -> (r: Nibble) {
        Nibble(value)
    }
}

impl vstd::std_specs::convert::FromSpecImpl<u8> for Nibble {
    open spec fn obeys_from_spec() -> bool {
        true
    }

    open spec fn from_spec(value: u8) -> Nibble {
        Nibble::from_raw(value)
    }
}

/// A nibble of value 0 with no flags set.
impl Default for Nibble {
    fn default() -> (r: Nibble)
        ensures
            r.raw() == 0,
    {
        Nibble(0)
    }
}

/// The four-bit value of a nibble.
impl From<Nibble> for u8 {
    fn from(n: Nibble) -> (r: u8) {
        n.get_value()
    }
}

impl vstd::std_specs::convert::FromSpecImpl<Nibble> for u8 {
    open spec fn obeys_from_spec() -> bool {
        true
    }

    open spec fn from_spec(n: Nibble) -> u8 {
        n.value()
    }
}

impl From<Nibble> for usize {
    fn from(n: Nibble) -> (r: usize) {
        n.get_value() as usize
    }
}

impl vstd::std_specs::convert::FromSpecImpl<Nibble> for usize {
    open spec fn obeys_from_spec() -> bool {
        true
    }

    open spec fn from_spec(n: Nibble) -> usize {
        n.value() as usize
    }
}

impl From<Nibble> for i32 {
    fn from(n: Nibble) -> (r: i32) {
        n.get_value() as i32
    }
}

impl vstd::std_specs::convert::FromSpecImpl<Nibble> for i32 {
    open spec fn obeys_from_spec() -> bool {
        true
    }

    open spec fn from_spec(n: Nibble) -> i32 {
        n.value() as i32
    }
}

/// Nibbles compare by their four-bit values; the flag bits are ignored.
impl PartialEq for Nibble {
    fn eq(&self, other: &Nibble) -> (r: bool) {
        self.get_value() == other.get_value()
    }
}

impl vstd::std_specs::cmp::PartialEqSpecImpl for Nibble {
    open spec fn obeys_eq_spec() -> bool {
        true
    }

    open spec fn eq_spec(&self, other: &Nibble) -> bool {
        self.value() == other.value()
    }
}

/// A nibble equals a number when its four-bit value does.
impl PartialEq<i32> for Nibble {
    fn eq(&self, other: &i32) -> (r: bool) {
        self.get_value() as i32 == *other
    }
}

impl vstd::std_specs::cmp::PartialEqSpecImpl<i32> for Nibble {
    open spec fn obeys_eq_spec() -> bool {
        true
    }

    open spec fn eq_spec(&self, other: &i32) -> bool {
        self.value() as int == *other as int
    }
}

/// For operands in 0..=15: the value of a sum is the sum modulo 16, a
/// difference carries exactly when the left operand is not below the right
/// one, the zero flag is the value being 0, and the negative flag of a sum or
/// a difference is bit 3 of its four-bit value.
pub proof fn lemma_nibble_laws(a: Nibble, b: Nibble)
    requires
        a.raw() < 16,
        b.raw() < 16,
    ensures
        value_of(sum_raw(a, b)) == (a.raw() + b.raw()) % 16,
        carry_of(difference_raw(a, b)) == (a.raw() >= b.raw()),
        a.zero() == (a.raw() == 0),
        negative_of(sum_raw(a, b)) == (value_of(sum_raw(a, b)) >= 8),
        negative_of(difference_raw(a, b)) == (value_of(difference_raw(a, b)) >= 8),
{
}

} // verus!
