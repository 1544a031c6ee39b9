//! Times in seconds, as double-precision numbers that are carried and compared but
//! never computed with.

use vstd::prelude::*;

verus! {

/// A number of seconds, held as the bit pattern of a double-precision number.
#[derive(Clone, Copy, Debug)]
pub struct Seconds {
    pub bits: u64,
}

/// The bit that holds the sign.
pub const SIGN: u64 = 0x8000_0000_0000_0000;

/// The pattern of infinity: whatever lies above it, the sign aside, is not a number.
pub const INFINITE: u64 = 0x7ff0_0000_0000_0000;

impl Seconds {
    /// The pattern without its sign.
    pub open spec fn magnitude(self) -> int {
        self.bits as int % SIGN as int
    }

    /// The pattern stands for no number.
    pub open spec fn not_a_number(self) -> bool {
        self.magnitude() > INFINITE
    }

    /// An integer by which the numbers are ordered; both zeros have the same.
    pub open spec fn order(self) -> int {
        if self.bits < SIGN {
            self.magnitude()
        } else {
            -self.magnitude()
        }
    }

    /// The two are equal as numbers. What is not a number equals nothing.
    pub open spec fn equals(self, other: Seconds) -> bool {
        &&& !self.not_a_number()
        &&& !other.not_a_number()
        &&& self.order() == other.order()
    }

    /// Greater than zero.
    pub open spec fn positive(self) -> bool {
        &&& !self.not_a_number()
        &&& self.order() > 0
    }

    /// The pattern without its sign.
    fn unsigned(self) -> (r: u64)
        ensures
            r == self.magnitude(),
    {
        if self.bits < SIGN {
            self.bits
        } else {
            self.bits - SIGN
        }
    }

    /// Whether the two are equal as numbers.
    pub fn same(self, other: Seconds) -> (r: bool)
        ensures
            r == self.equals(other),
    {
        let a = self.unsigned();
        let b = other.unsigned();
        a <= INFINITE && b <= INFINITE && a == b && (a == 0 || (self.bits < SIGN) == (other.bits < SIGN))
    }

    /// Whether the number is greater than zero.
    pub fn is_positive(self) -> (r: bool)
        ensures
            r == self.positive(),
    {
        0 < self.bits && self.bits <= INFINITE
    }
}

/// Numbers are equal where their patterns are the same or both are zeros; what is not a number
/// equals nothing, not even itself.
pub proof fn law_equal_numbers(a: Seconds, b: Seconds)
    ensures
        a.equals(b) ==> a.bits == b.bits || (a.bits == 0 && b.bits == 0x8000_0000_0000_0000) || (a.bits
            == 0x8000_0000_0000_0000 && b.bits == 0),
        a.equals(b) ==> a.bits <= 0x7ff0_0000_0000_0000 || 0x8000_0000_0000_0000 <= a.bits
            <= 0xfff0_0000_0000_0000,
        a.bits == b.bits && a.bits <= 0x7ff0_0000_0000_0000 ==> a.equals(b),
        a.bits == b.bits && 0x8000_0000_0000_0000 <= a.bits <= 0xfff0_0000_0000_0000 ==> a.equals(b),
        a.equals(b) == b.equals(a),
{
}

/// The positive numbers are those with no sign that are neither zero nor beyond infinity.
pub proof fn law_positive_numbers(a: Seconds)
    ensures
        a.positive() <==> 0 < a.bits <= 0x7ff0_0000_0000_0000,
{
}

}
