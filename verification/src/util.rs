use vstd::prelude::*;

verus! {

/// A single-precision number held as its IEEE 754 bit pattern.
///
/// The engine stores and forwards such numbers without computing on them; the
/// one question it asks of a number is whether it is at least zero.
#[derive(Clone, Copy, Debug, PartialEq, Eq, Structural)]
pub struct Float {
    pub bits: u32,
}

impl Float {
    /// The sign bit: `1` for a negative number and for negative zero.
    pub open spec fn sign(self) -> u32 {
        self.bits >> 31
    }

    /// The biased exponent, eight bits wide.
    pub open spec fn exponent(self) -> u32 {
        (self.bits >> 23) & 0xff
    }

    /// The fraction, twenty-three bits wide.
    pub open spec fn fraction(self) -> u32 {
        self.bits & 0x7f_ffff
    }

    /// Not a number: the exponent is all ones and the fraction is not zero.
    pub open spec fn is_nan(self) -> bool {
        self.exponent() == 0xff && self.fraction() != 0
    }

    /// Positive or negative zero.
    pub open spec fn is_zero(self) -> bool {
        self.exponent() == 0 && self.fraction() == 0
    }

    /// The number compares as at least zero: it is a zero of either sign, or
    /// it is positive (finite or infinite). A NaN compares with nothing.
    pub open spec fn spec_is_non_negative(self) -> bool {
        !self.is_nan() && (self.sign() == 0 || self.is_zero())
    }

    /// The number with the bit pattern `bits`.
    pub fn from_bits(bits: u32) -> (number: Self)
        ensures
            number.bits == bits,
    {
        Float { bits }
    }

    /// The bit pattern of the number.
    pub fn to_bits(&self) -> (bits: u32)
        ensures
            bits == self.bits,
    {
        self.bits
    }

    /// Whether the number is at least zero.
    pub fn is_non_negative(&self) -> (answer: bool)
        ensures
            answer == self.spec_is_non_negative(),
    {
        let bits: u32 = self.bits;
        assert((bits <= 0x7f80_0000 || bits == 0x8000_0000) <==> (!(((bits >> 23) & 0xff) == 0xff
            && (bits & 0x7f_ffff) != 0) && (bits >> 31 == 0 || (((bits >> 23) & 0xff) == 0 && (bits
            & 0x7f_ffff) == 0)))) by (bit_vector);
        bits <= 0x7f80_0000 || bits == 0x8000_0000
    }
}

/// A point of the playfield in fractional coordinates.
#[derive(Clone, Copy, Debug, PartialEq, Eq, Structural)]
pub struct Vec2 {
    pub x: Float,
    pub y: Float,
}

impl Vec2 {
    /// The point at `x` and `y`.
    pub fn new(x: Float, y: Float) -> (point: Self)
        ensures
            point.x == x,
            point.y == y,
    {
        Vec2 { x, y }
    }
}

/// A point of the playfield in whole coordinates.
#[derive(Clone, Copy, Debug, PartialEq, Eq, Structural)]
pub struct IVec2 {
    pub x: i32,
    pub y: i32,
}

impl IVec2 {
    /// The point at `x` and `y`.
    pub fn new(x: i32, y: i32) -> (point: Self)
        ensures
            point.x == x,
            point.y == y,
    {
        IVec2 { x, y }
    }
}

/// A new vector with the values of `values`, in order.
pub fn copy_vec<T: Copy>(values: &Vec<T>) -> (copy: Vec<T>)
    ensures
        copy@ == values@,
{
    let mut copy: Vec<T> = Vec::new();
    let mut index: usize = 0;
    while index < values.len()
        invariant
            index <= values.len(),
            copy@ == values@.take(index as int),
        decreases values.len() - index,
    {
        copy.push(values[index]);
        index += 1;
    }
    copy
}

/// The values of `values` in the opposite order.
pub fn reverse<T>(values: Vec<T>) -> (reversed: Vec<T>)
    ensures
        reversed@ == values@.reverse(),
{
    let mut values = values;
    let ghost all = values@;
    let mut reversed: Vec<T> = Vec::new();
    while values.len() > 0
        invariant
            values@ == all.take(values@.len() as int),
            reversed@.len() + values@.len() == all.len(),
            forall|j: int| 0 <= j < reversed@.len() ==> reversed@[j] == all[all.len() - 1 - j],
        decreases values.len(),
    {
        let last = values.pop().unwrap();
        reversed.push(last);
    }
    reversed
}

} // verus!
