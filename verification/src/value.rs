//! Numbers as the machine holds them, literals as the chunk holds them, and
//! the growable array of literals that serves as a chunk's constant pool.

use vstd::prelude::*;

verus! {

/// The sign bit of a double.
pub const SIGN_BIT: u64 = 0x8000_0000_0000_0000;

/// A number of the running machine: the bits of an IEEE 754 double.
#[derive(Debug, Clone, Copy, PartialEq, Eq, Structural)]
pub struct Value {
    pub bits: u64,
}

impl Value {
    /// The bits of this number with the sign bit flipped.
    pub open spec fn negated(self) -> Value {
        Value {
            bits: if self.bits >= SIGN_BIT {
                (self.bits - SIGN_BIT) as u64
            } else {
                (self.bits + SIGN_BIT) as u64
            },
        }
    }

    /// Whether this number compares equal to zero: it is `+0.0` or `-0.0`.
    pub open spec fn zero(self) -> bool {
        self.bits == 0 || self.bits == SIGN_BIT
    }

    /// The number that holds the given bits.
    pub fn from_bits(bits: u64) -> (value: Value)
        ensures
            value.bits == bits,
    {
        Value { bits }
    }

    /// The arithmetic negation. Negating a double flips its sign bit and
    /// leaves the other bits alone, whatever the double is.
    pub fn negate(self) -> (value: Value)
        ensures
            value == self.negated(),
    {
        if self.bits >= SIGN_BIT {
            Value { bits: self.bits - SIGN_BIT }
        } else {
            Value { bits: self.bits + SIGN_BIT }
        }
    }

    /// Whether the number compares equal to zero.
    pub fn is_zero(self) -> (zero: bool)
        ensures
            zero == self.zero(),
    {
        self.bits == 0 || self.bits == SIGN_BIT
    }
}

/// Negating twice gives the number back.
pub proof fn negate_is_involution(value: Value)
    ensures
        value.negated().negated() == value,
{
}

/// A numeric literal where it stands in the source: the byte offset of its
/// first digit, and how many bytes it takes.
#[derive(Debug, Clone, Copy, PartialEq, Eq, Structural)]
pub struct Literal {
    pub start: usize,
    pub length: usize,
}

/// A growable array of literals, with its count kept beside it.
#[derive(Debug, Clone)]
pub struct ValueArray {
    pub count: usize,
    pub values: Vec<Literal>,
}

impl View for ValueArray {
    type V = Seq<Literal>;

    open spec fn view(&self) -> Seq<Literal> {
        self.values@
    }
}

impl ValueArray {
    /// The count is the number of literals held.
    pub open spec fn wf(&self) -> bool {
        self.count == self.values@.len()
    }

    pub fn init_value_array() -> (array: ValueArray)
        ensures
            array.wf(),
            array@ == Seq::<Literal>::empty(),
    {
        ValueArray { count: 0, values: Vec::with_capacity(8) }
    }

    /// Appends a literal. Nothing that was held moves or changes.
    pub fn write_value_array(&mut self, value: Literal)
        requires
            old(self).wf(),
        ensures
            final(self).wf(),
            final(self)@ == old(self)@.push(value),
    {
        self.values.push(value);
        self.count = self.values.len();
    }
}

} // verus!
